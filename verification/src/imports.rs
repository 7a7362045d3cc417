//! Type references across packages: parsing qualified names, import paths
//! and module aliases.

use vstd::prelude::*;
use vstd::string::StringExecFns;
use crate::chars::{str_to_lowercase, unicode_str_lowercase};
use crate::text::{
    concat, contains_char, has_char, is_prefix, push_char, split_char, split_spec, starts_with,
    str_eq, to_owned_string, views,
};

verus! {

broadcast use vstd::string::group_string_axioms;

/// A type reference that needs to be imported.
#[derive(Debug, Clone, PartialEq, Eq, Hash)]
pub struct TypeReference {
    /// Group (e.g. `k8s.io`, `apiextensions.crossplane.io`).
    pub group: String,
    /// Version (e.g. `v1`, `v1beta1`).
    pub version: String,
    /// Kind (e.g. `ObjectMeta`, `Volume`).
    pub kind: String,
}

impl View for TypeReference {
    type V = (Seq<char>, Seq<char>, Seq<char>);

    open spec fn view(&self) -> (Seq<char>, Seq<char>, Seq<char>) {
        (self.group@, self.version@, self.kind@)
    }
}

// ---------------------------------------------------------------------------
// Specifications
// ---------------------------------------------------------------------------

/// The group, version and kind named by a qualified type name:
/// `io.k8s.apimachinery.pkg.apis.meta.<v>.<Kind>` (at least eight dotted
/// parts) and `io.k8s.api.<group>.<v>.<Kind>` (at least five; the `core`
/// group is `k8s.io`, others gain `.k8s.io`); `<group>/.../<v>.<Kind>`; and
/// the short `v1.<Kind>`, `v1beta1.<Kind>`, `v1alpha1.<Kind>` forms for
/// core types.
pub open spec fn qualified_name_spec(name: Seq<char>) -> Option<(Seq<char>, Seq<char>, Seq<char>)> {
    if is_prefix("io.k8s."@, name) {
        let parts = split_spec(name, '.');
        let n = parts.len() as int;
        if is_prefix("io.k8s.apimachinery.pkg.apis.meta."@, name) && n >= 8 {
            Some(("k8s.io"@, parts[n - 2], parts[n - 1]))
        } else if is_prefix("io.k8s.api."@, name) && n >= 5 {
            let group = if parts[3] == "core"@ {
                "k8s.io"@
            } else {
                parts[3] + ".k8s.io"@
            };
            Some((group, parts[n - 2], parts[n - 1]))
        } else {
            None
        }
    } else if has_char(name, '/') {
        let parts = split_spec(name, '/');
        let tp = split_spec(parts.last(), '.');
        if tp.len() == 2 {
            Some((parts[0], tp[0], tp[1]))
        } else {
            None
        }
    } else if is_prefix("v1."@, name) || is_prefix("v1beta1."@, name) || is_prefix(
        "v1alpha1."@,
        name,
    ) {
        let parts = split_spec(name, '.');
        if parts.len() == 2 {
            Some(("k8s.io"@, parts[0], parts[1]))
        } else {
            None
        }
    } else {
        None
    }
}

/// `s` with every `-` (and, when `dots_too`, every `.`) replaced by `_`.
pub open spec fn underscore_chars(s: Seq<char>, dots_too: bool) -> Seq<char> {
    s.map_values(|c: char| if c == '-' || (dots_too && c == '.') { '_' } else { c })
}

/// The alias under which a module is imported: the group with `.` and `-`
/// replaced by `_`, an underscore, and the version with `-` replaced by `_`.
pub open spec fn module_alias_spec(group: Seq<char>, version: Seq<char>) -> Seq<char> {
    underscore_chars(group, true) + seq!['_'] + underscore_chars(version, false)
}

/// The directory of a group's package: `core` for the empty group, the group
/// with `.` replaced by `_` otherwise.
pub open spec fn group_path_spec(group: Seq<char>) -> Seq<char> {
    if group.len() == 0 {
        "core"@
    } else {
        group.map_values(|c: char| if c == '.' { '_' } else { c })
    }
}

/// `../` repeated `n` times.
pub open spec fn parent_dirs(n: nat) -> Seq<char>
    decreases n,
{
    if n == 0 {
        Seq::<char>::empty()
    } else {
        parent_dirs((n - 1) as nat) + "../"@
    }
}

/// How many directories a file of a group sits below the packages root:
/// Crossplane packages nest as `crossplane/<group>/crossplane/<version>`,
/// other packages as `<group>/<version>`.
pub open spec fn package_depth(from_group: Seq<char>) -> nat {
    if crate::text::contains_seq(from_group, "crossplane"@) {
        4
    } else {
        2
    }
}

/// The import path of a type's file seen from a file of another module.
pub open spec fn import_path_spec(
    r: (Seq<char>, Seq<char>, Seq<char>),
    from_group: Seq<char>,
    from_version: Seq<char>,
) -> Seq<char> {
    let file = unicode_str_lowercase(r.2) + ".ncl"@;
    if from_group == r.0 && from_version == r.1 {
        "./"@ + file
    } else if from_group == r.0 {
        "../"@ + r.1 + seq!['/'] + file
    } else {
        parent_dirs(package_depth(from_group)) + group_path_spec(r.0) + seq!['/'] + r.1 + seq!['/']
            + file
    }
}

// ---------------------------------------------------------------------------
// Operations
// ---------------------------------------------------------------------------

/// `s` with every `-` (and, when `dots_too`, every `.`) replaced by `_`.
fn underscore(s: &str, dots_too: bool) -> (r: String)
    ensures
        r@ == underscore_chars(s@, dots_too),
{
    let cs = crate::text::chars_of(s);
    let mut r = String::new();
    let mut i: usize = 0;
    while i < cs.len()
        invariant
            cs@ == s@,
            i <= cs.len(),
            r@ == underscore_chars(s@, dots_too).take(i as int),
        decreases cs.len() - i,
    {
        let c = cs[i];
        let d = if c == '-' || (dots_too && c == '.') {
            '_'
        } else {
            c
        };
        push_char(&mut r, d);
        assert(underscore_chars(s@, dots_too).take(i + 1) =~= underscore_chars(s@, dots_too).take(
            i as int,
        ).push(d));
        i = i + 1;
    }
    assert(underscore_chars(s@, dots_too).take(cs.len() as int) =~= underscore_chars(s@, dots_too));
    r
}

/// The directory of a group's package.
fn group_path(group: &str) -> (r: String)
    ensures
        r@ == group_path_spec(group@),
{
    let cs = crate::text::chars_of(group);
    if cs.len() == 0 {
        proof {
            reveal_strlit("core");
        }
        return to_owned_string("core");
    }
    let mut r = String::new();
    let mut i: usize = 0;
    let ghost target = group@.map_values(|c: char| if c == '.' { '_' } else { c });
    while i < cs.len()
        invariant
            cs@ == group@,
            target == group@.map_values(|c: char| if c == '.' { '_' } else { c }),
            i <= cs.len(),
            r@ == target.take(i as int),
        decreases cs.len() - i,
    {
        let c = cs[i];
        let d = if c == '.' {
            '_'
        } else {
            c
        };
        push_char(&mut r, d);
        assert(target.take(i + 1) =~= target.take(i as int).push(d));
        i = i + 1;
    }
    assert(target.take(cs.len() as int) =~= target);
    r
}

/// `../` repeated `n` times.
fn parent_path(n: usize) -> (r: String)
    ensures
        r@ == parent_dirs(n as nat),
{
    let mut r = String::new();
    let mut i: usize = 0;
    while i < n
        invariant
            i <= n,
            r@ == parent_dirs(i as nat),
        decreases n - i,
    {
        r.append("../");
        i = i + 1;
    }
    r
}

impl TypeReference {
    /// A reference from its parts.
    pub fn new(group: String, version: String, kind: String) -> (r: TypeReference)
        ensures
            r.group == group,
            r.version == version,
            r.kind == kind,
    {
        TypeReference { group, version, kind }
    }

    /// Parse a qualified type reference such as
    /// `io.k8s.api.core.v1.ObjectMeta`, `k8s.io/api/core/v1.ObjectMeta` or
    /// `v1.ObjectMeta`.
    pub fn from_qualified_name(name: &str) -> (r: Option<TypeReference>)
        ensures
            match r {
                Some(t) => qualified_name_spec(name@) == Some(t@),
                None => qualified_name_spec(name@) is None,
            },
    {
        proof {
            reveal_strlit("k8s.io");
            reveal_strlit("core");
        }
        if starts_with(name, "io.k8s.") {
            let parts = split_char(name, '.');
            let ghost ps = views(parts@);
            let n = parts.len();
            if starts_with(name, "io.k8s.apimachinery.pkg.apis.meta.") && n >= 8 {
                assert(ps[n - 2] == parts@[n - 2]@ && ps[n - 1] == parts@[n - 1]@);
                return Some(
                    TypeReference::new(
                        to_owned_string("k8s.io"),
                        parts[n - 2].clone(),
                        parts[n - 1].clone(),
                    ),
                );
            } else if starts_with(name, "io.k8s.api.") && n >= 5 {
                assert(ps[n - 2] == parts@[n - 2]@ && ps[n - 1] == parts@[n - 1]@);
                assert(ps[3] == parts@[3]@);
                let group = if str_eq(parts[3].as_str(), "core") {
                    to_owned_string("k8s.io")
                } else {
                    concat(parts[3].as_str(), ".k8s.io")
                };
                return Some(TypeReference::new(group, parts[n - 2].clone(), parts[n - 1].clone()));
            }
            return None;
        } else if contains_char(name, '/') {
            let parts = split_char(name, '/');
            let ghost ps = views(parts@);
            proof {
                crate::text::lemma_split_nonempty(name@, '/');
            }
            let last = &parts[parts.len() - 1];
            assert(ps.last() == last@);
            let type_parts = split_char(last.as_str(), '.');
            let ghost tps = views(type_parts@);
            if type_parts.len() == 2 {
                assert(tps[0] == type_parts@[0]@ && tps[1] == type_parts@[1]@);
                assert(ps[0] == parts@[0]@);
                return Some(
                    TypeReference::new(
                        parts[0].clone(),
                        type_parts[0].clone(),
                        type_parts[1].clone(),
                    ),
                );
            }
            return None;
        } else if starts_with(name, "v1.") || starts_with(name, "v1beta1.") || starts_with(
            name,
            "v1alpha1.",
        ) {
            let parts = split_char(name, '.');
            let ghost ps = views(parts@);
            if parts.len() == 2 {
                assert(ps[0] == parts@[0]@ && ps[1] == parts@[1]@);
                return Some(
                    TypeReference::new(
                        to_owned_string("k8s.io"),
                        parts[0].clone(),
                        parts[1].clone(),
                    ),
                );
            }
            return None;
        }
        None
    }

    /// The import path of this type's file, seen from a file of module
    /// `from_group`/`from_version`.
    pub fn import_path(&self, from_group: &str, from_version: &str) -> (r: String)
        ensures
            r@ == import_path_spec(self@, from_group@, from_version@),
    {
        let lower = str_to_lowercase(self.kind.as_str());
        let file = concat(lower.as_str(), ".ncl");
        let same_group = str_eq(from_group, self.group.as_str());
        if same_group && str_eq(from_version, self.version.as_str()) {
            return concat("./", file.as_str());
        }
        let mut slash = String::new();
        push_char(&mut slash, '/');
        if same_group {
            let mut r = to_owned_string("../");
            r.append(self.version.as_str());
            r.append(slash.as_str());
            r.append(file.as_str());
            return r;
        }
        let depth: usize = if crate::text::contains(from_group, "crossplane") {
            4
        } else {
            2
        };
        let mut r = parent_path(depth);
        let gp = group_path(self.group.as_str());
        r.append(gp.as_str());
        r.append(slash.as_str());
        r.append(self.version.as_str());
        r.append(slash.as_str());
        r.append(file.as_str());
        r
    }

    /// The alias under which this reference's module is imported.
    pub fn module_alias(&self) -> (r: String)
        ensures
            r@ == module_alias_spec(self.group@, self.version@),
    {
        let mut r = underscore(self.group.as_str(), true);
        let mut sep = String::new();
        push_char(&mut sep, '_');
        r.append(sep.as_str());
        let v = underscore(self.version.as_str(), false);
        r.append(v.as_str());
        r
    }
}

/// The kinds of the commonly referenced core Kubernetes types.
pub open spec fn common_k8s_kinds() -> Seq<Seq<char>> {
    seq![
        "ObjectMeta"@,
        "ListMeta"@,
        "TypeMeta"@,
        "LabelSelector"@,
        "Volume"@,
        "VolumeMount"@,
        "Container"@,
        "PodSpec"@,
        "ResourceRequirements"@,
        "Affinity"@,
        "Toleration"@,
        "EnvVar"@,
        "ConfigMapKeySelector"@,
        "SecretKeySelector"@,
    ]
}

fn core_v1_ref(kind: &str) -> (r: TypeReference)
    ensures
        r@ == ("k8s.io"@, "v1"@, kind@),
{
    TypeReference::new(to_owned_string("k8s.io"), to_owned_string("v1"), to_owned_string(kind))
}

/// Common Kubernetes types that are frequently referenced: each a `k8s.io`
/// `v1` type, in the order of `common_k8s_kinds`.
pub fn common_k8s_types() -> (r: Vec<TypeReference>)
    ensures
        r.len() == common_k8s_kinds().len(),
        forall|i: int| 0 <= i < r.len() ==> #[trigger] r@[i]@ == ("k8s.io"@, "v1"@, common_k8s_kinds()[i]),
{
    let mut r: Vec<TypeReference> = Vec::new();
    r.push(core_v1_ref("ObjectMeta"));
    r.push(core_v1_ref("ListMeta"));
    r.push(core_v1_ref("TypeMeta"));
    r.push(core_v1_ref("LabelSelector"));
    r.push(core_v1_ref("Volume"));
    r.push(core_v1_ref("VolumeMount"));
    r.push(core_v1_ref("Container"));
    r.push(core_v1_ref("PodSpec"));
    r.push(core_v1_ref("ResourceRequirements"));
    r.push(core_v1_ref("Affinity"));
    r.push(core_v1_ref("Toleration"));
    r.push(core_v1_ref("EnvVar"));
    r.push(core_v1_ref("ConfigMapKeySelector"));
    r.push(core_v1_ref("SecretKeySelector"));
    r
}

} // verus!
