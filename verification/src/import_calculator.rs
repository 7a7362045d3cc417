//! Import paths between packages and versions: through the module registry
//! when it knows both modules, by the package directory layout otherwise.

use vstd::prelude::*;
use std::sync::Arc;
use vstd::string::StringExecFns;
use crate::module_registry::{components, dotdots, import_path_spec, map_char, path_components, ModuleRegistry};
use crate::naming::{camel_case_spec, to_camel_case};
use crate::text::{concat, first_piece, first_piece_len, chars_of, join, join_spec, push_char, str_eq, string_of_range, to_owned_string, views};

verus! {

broadcast use vstd::string::group_string_axioms;

/// The package directory of a group, as path components.
pub open spec fn group_path_spec(group: Seq<char>) -> Seq<Seq<char>> {
    if group == "k8s.io"@ {
        seq!["k8s_io"@]
    } else if group.len() == 0 {
        seq!["core"@]
    } else {
        components(map_char(group, '.', '_'))
    }
}

/// The import alias prefix of a group.
pub open spec fn group_alias_spec(group: Seq<char>) -> Seq<char> {
    if group == "k8s.io"@ {
        "k8s"@
    } else if group.len() == 0 {
        "core"@
    } else {
        first_piece(group, '.')
    }
}

/// The path from a package's version directory up to the packages root and
/// down into another package.
pub open spec fn relative_path_spec(from: Seq<Seq<char>>, to: Seq<Seq<char>>) -> Seq<char> {
    join_spec(dotdots(from.len() + 1) + to, "/"@)
}

/// The import path by directory layout alone: the same module, a sibling
/// version of the same package, or another package's version directory.
pub open spec fn fallback_spec(
    from_group: Seq<char>,
    from_version: Seq<char>,
    to_group: Seq<char>,
    to_version: Seq<char>,
    to_type: Seq<char>,
) -> Seq<char> {
    if from_group == to_group && from_version == to_version {
        "./"@ + to_type + ".ncl"@
    } else if from_group == to_group {
        "../"@ + to_version + "/"@ + to_type + ".ncl"@
    } else {
        relative_path_spec(group_path_spec(from_group), group_path_spec(to_group)) + "/"@ + to_version
            + "/"@ + to_type + ".ncl"@
    }
}

/// The alias suggested for an import: the camel-cased type within the same
/// package, otherwise prefixed by the group alias (and the version when it
/// is not `v1`).
pub open spec fn alias_spec(from_group: Seq<char>, to_group: Seq<char>, to_version: Seq<char>, to_type: Seq<char>) -> Seq<char> {
    if from_group == to_group {
        camel_case_spec(to_type)
    } else if to_version == "v1"@ {
        group_alias_spec(to_group) + "_"@ + camel_case_spec(to_type)
    } else {
        group_alias_spec(to_group) + "_"@ + to_version + "_"@ + camel_case_spec(to_type)
    }
}

/// Calculator of import paths.
pub struct ImportPathCalculator {
    registry: Arc<ModuleRegistry>,
}

impl ImportPathCalculator {
    /// The registry's modules.
    pub closed spec fn registry_modules(&self) -> Seq<crate::module_registry::ModuleInfoView> {
        (*self.registry).module_views()
    }

    /// A calculator over a shared registry.
    pub fn new(registry: Arc<ModuleRegistry>) -> (r: ImportPathCalculator)
        ensures
            r.registry_modules() == (*registry).module_views(),
    {
        ImportPathCalculator { registry }
    }

    /// A calculator over a registry.
    pub fn from_registry(registry: ModuleRegistry) -> (r: ImportPathCalculator)
        ensures
            r.registry_modules() == registry.module_views(),
    {
        ImportPathCalculator { registry: Arc::new(registry) }
    }

    /// A calculator over an empty registry.
    pub fn new_standalone() -> (r: ImportPathCalculator)
        ensures
            r.registry_modules().len() == 0,
    {
        ImportPathCalculator { registry: Arc::new(ModuleRegistry::new()) }
    }

    /// The import path from a file of `from_group`/`from_version` to type
    /// `to_type` of `to_group`/`to_version`: the registry's path between the
    /// modules `<group>.<version>` when it has one, the layout path
    /// otherwise.
    pub fn calculate(
        &self,
        from_group: &str,
        from_version: &str,
        to_group: &str,
        to_version: &str,
        to_type: &str,
    ) -> (r: String)
        ensures
            r@ == match import_path_spec(
                self.registry_modules(),
                from_group@ + "."@ + from_version@,
                to_group@ + "."@ + to_version@,
                to_type@,
            ) {
                Some(p) => p,
                None => fallback_spec(from_group@, from_version@, to_group@, to_version@, to_type@),
            },
    {
        let mut from_module = concat(from_group, ".");
        from_module.append(from_version);
        let mut to_module = concat(to_group, ".");
        to_module.append(to_version);
        match self.registry.calculate_import_path(from_module.as_str(), to_module.as_str(), to_type) {
            Some(p) => p,
            None => self.calculate_fallback(from_group, from_version, to_group, to_version, to_type),
        }
    }

    /// The import path together with a suggested alias.
    pub fn calculate_with_alias(
        &self,
        from_group: &str,
        from_version: &str,
        to_group: &str,
        to_version: &str,
        to_type: &str,
    ) -> (r: (String, String))
        ensures
            r.0@ == match import_path_spec(
                self.registry_modules(),
                from_group@ + "."@ + from_version@,
                to_group@ + "."@ + to_version@,
                to_type@,
            ) {
                Some(p) => p,
                None => fallback_spec(from_group@, from_version@, to_group@, to_version@, to_type@),
            },
            r.1@ == alias_spec(from_group@, to_group@, to_version@, to_type@),
    {
        let path = self.calculate(from_group, from_version, to_group, to_version, to_type);
        let camel = to_camel_case(to_type);
        let alias = if str_eq(from_group, to_group) {
            camel
        } else if str_eq(to_version, "v1") {
            let mut a = Self::group_to_alias(to_group);
            a.append("_");
            a.append(camel.as_str());
            a
        } else {
            let mut a = Self::group_to_alias(to_group);
            a.append("_");
            a.append(to_version);
            a.append("_");
            a.append(camel.as_str());
            a
        };
        (path, alias)
    }

    /// The import path by directory layout alone.
    pub fn calculate_fallback(
        &self,
        from_group: &str,
        from_version: &str,
        to_group: &str,
        to_version: &str,
        to_type: &str,
    ) -> (r: String)
        ensures
            r@ == fallback_spec(from_group@, from_version@, to_group@, to_version@, to_type@),
    {
        let same_group = str_eq(from_group, to_group);
        if same_group && str_eq(from_version, to_version) {
            let mut r = concat("./", to_type);
            r.append(".ncl");
            return r;
        }
        if same_group {
            let mut r = concat("../", to_version);
            r.append("/");
            r.append(to_type);
            r.append(".ncl");
            return r;
        }
        let from_path = Self::group_to_path(from_group);
        let to_path = Self::group_to_path(to_group);
        let mut r = Self::calculate_relative_path(&from_path, &to_path);
        r.append("/");
        r.append(to_version);
        r.append("/");
        r.append(to_type);
        r.append(".ncl");
        r
    }

    /// The package directory of a group, as path components.
    pub fn group_to_path(group: &str) -> (r: Vec<String>)
        ensures
            views(r@) == group_path_spec(group@),
    {
        if str_eq(group, "k8s.io") {
            let mut r: Vec<String> = Vec::new();
            r.push(to_owned_string("k8s_io"));
            assert(views(r@) =~= seq!["k8s_io"@]);
            return r;
        }
        if chars_of(group).len() == 0 {
            let mut r: Vec<String> = Vec::new();
            r.push(to_owned_string("core"));
            assert(views(r@) =~= seq!["core"@]);
            return r;
        }
        let cs = chars_of(group);
        let mut flat = String::new();
        let mut i: usize = 0;
        let ghost target = map_char(group@, '.', '_');
        while i < cs.len()
            invariant
                cs@ == group@,
                target == map_char(group@, '.', '_'),
                i <= cs.len(),
                flat@ == target.take(i as int),
            decreases cs.len() - i,
        {
            let c = if cs[i] == '.' {
                '_'
            } else {
                cs[i]
            };
            push_char(&mut flat, c);
            assert(target.take(i + 1) =~= target.take(i as int).push(c));
            i = i + 1;
        }
        assert(target.take(cs.len() as int) =~= target);
        path_components(flat.as_str())
    }

    /// The import alias prefix of a group.
    pub fn group_to_alias(group: &str) -> (r: String)
        ensures
            r@ == group_alias_spec(group@),
    {
        if str_eq(group, "k8s.io") {
            return to_owned_string("k8s");
        }
        let cs = chars_of(group);
        if cs.len() == 0 {
            return to_owned_string("core");
        }
        let n = first_piece_len(&cs, '.');
        string_of_range(&cs, 0, n)
    }

    /// The path from a package's version directory up to the packages root
    /// and down into another package.
    pub fn calculate_relative_path(from: &Vec<String>, to: &Vec<String>) -> (r: String)
        ensures
            r@ == relative_path_spec(views(from@), views(to@)),
    {
        let mut parts: Vec<String> = Vec::new();
        let first = to_owned_string("..");
        parts.push(first);
        assert(views(parts@) =~= dotdots(1));
        let mut i: usize = 0;
        let n = from.len();
        while i < n
            invariant
                n == from.len(),
                i <= n,
                views(parts@) == dotdots((i + 1) as nat),
            decreases n - i,
        {
            let ghost p0 = parts@;
            let d = to_owned_string("..");
            parts.push(d);
            assert(views(parts@) =~= views(p0).push(d@));
            assert(dotdots((i + 2) as nat) =~= dotdots((i + 1) as nat).push(".."@));
            i = i + 1;
        }
        let mut rest = crate::text::clone_strings(to);
        let ghost p1 = parts@;
        let ghost r1 = rest@;
        parts.append(&mut rest);
        assert(views(parts@) =~= views(p1) + views(r1));
        join(&parts, "/")
    }

    /// Whether a type of another module needs an import.
    pub fn requires_import(&self, from_group: &str, from_version: &str, to_group: &str, to_version: &str) -> (r: bool)
        ensures
            r == (from_group@ != to_group@ || from_version@ != to_version@),
    {
        !str_eq(from_group, to_group) || !str_eq(from_version, to_version)
    }

    /// Whether an import crosses versions of one package.
    pub fn is_cross_version_import(&self, from_group: &str, from_version: &str, to_group: &str, to_version: &str) -> (r: bool)
        ensures
            r == (from_group@ == to_group@ && from_version@ != to_version@),
    {
        str_eq(from_group, to_group) && !str_eq(from_version, to_version)
    }

    /// Whether an import crosses packages.
    pub fn is_cross_package_import(&self, from_group: &str, from_version: &str, to_group: &str, to_version: &str) -> (r: bool)
        ensures
            r == (from_group@ != to_group@),
    {
        !str_eq(from_group, to_group)
    }
}

} // verus!
