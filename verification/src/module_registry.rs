//! Module locations and layouts, and the import paths between modules.

use vstd::prelude::*;
use vstd::string::StringExecFns;
use crate::chars::{str_to_lowercase, unicode_str_lowercase};
use crate::fqn::{is_version_spec, join_prefix, rposition_version, version_pred};
use crate::digraph::{
    digraph_add_edge, digraph_add_node, digraph_edge_at, digraph_edges, digraph_is_cyclic, digraph_new, digraph_predecessors,
    digraph_scc, digraph_size, digraph_successors, digraph_toposort, edges_within, has_cycle,
    is_topological_order, lemma_component_cycle, lemma_neighbors_within, petgraph_scc, petgraph_toposort, predecessors, successors,
};
use crate::lookup::{last_index_of, lemma_last_index_of};
use crate::ir::{Module, TypeDefinition, IR};
use crate::pipeline::CoreError;
use crate::text::{
    chars_of, concat, contains, contains_seq, is_prefix, join, join_range, join_spec, push_char,
    rposition, split_char, split_spec, starts_with, str_eq, to_owned_string, views, lemma_rposition_range,
    lemma_split_nonempty,
};

verus! {

broadcast use vstd::string::group_string_axioms;

/// Semantic classification of module layout patterns.
#[derive(Debug, Clone, Copy, PartialEq, Eq, Structural)]
pub enum ModuleLayout {
    /// Both versioned and non-versioned directories at the root.
    MixedRoot,
    /// API groups with their own versions: `package/apigroup/version/type.ncl`.
    ApiGroupVersioned,
    /// Namespace directories with versions inside.
    NamespacedVersioned,
    /// Namespace directories without versions.
    NamespacedFlat,
    /// A single flat directory.
    Flat,
    /// To be resolved from the filesystem.
    AutoDetect,
}

/// Types of dependencies between modules.
#[derive(Debug, Clone, Copy, PartialEq, Eq, Structural)]
pub enum DependencyType {
    Import,
    TypeReference,
    Transitive,
}

/// Information about a module's location.
#[derive(Debug, Clone)]
pub struct ModuleInfo {
    /// The module's name (e.g. `k8s.io.v1`).
    pub name: String,
    /// Source domain (e.g. `k8s.io`).
    pub domain: String,
    /// Logical namespace within the domain.
    pub namespace: String,
    /// The API group.
    pub group: String,
    /// The version.
    pub version: String,
    /// The layout classification.
    pub layout: ModuleLayout,
    /// The components of the module's filesystem path (e.g. `k8s_io`, `v1`).
    pub path: Vec<String>,
    /// The components of the package root directory.
    pub package_root: Vec<String>,
    /// Type names in this module, with their schema casing.
    pub type_names: Vec<String>,
}

/// The value of a module's information.
pub struct ModuleInfoView {
    pub name: Seq<char>,
    pub domain: Seq<char>,
    pub namespace: Seq<char>,
    pub group: Seq<char>,
    pub version: Seq<char>,
    pub layout: ModuleLayout,
    pub path: Seq<Seq<char>>,
    pub package_root: Seq<Seq<char>>,
    pub type_names: Seq<Seq<char>>,
}

impl View for ModuleInfo {
    type V = ModuleInfoView;

    open spec fn view(&self) -> ModuleInfoView {
        ModuleInfoView {
            name: self.name@,
            domain: self.domain@,
            namespace: self.namespace@,
            group: self.group@,
            version: self.version@,
            layout: self.layout,
            path: views(self.path@),
            package_root: views(self.package_root@),
            type_names: views(self.type_names@),
        }
    }
}

// ---------------------------------------------------------------------------
// Specifications
// ---------------------------------------------------------------------------

/// The non-empty pieces, in order.
pub open spec fn nonempty_parts(parts: Seq<Seq<char>>) -> Seq<Seq<char>>
    decreases parts.len(),
{
    if parts.len() == 0 {
        Seq::empty()
    } else {
        let prev = nonempty_parts(parts.drop_last());
        if parts.last().len() > 0 {
            prev.push(parts.last())
        } else {
            prev
        }
    }
}

/// The components of a `/`-separated path.
pub open spec fn components(s: Seq<char>) -> Seq<Seq<char>> {
    nonempty_parts(split_spec(s, '/'))
}

/// `s` with every `from` character replaced by `to`.
pub open spec fn map_char(s: Seq<char>, from: char, to: char) -> Seq<char> {
    s.map_values(|c: char| if c == from { to } else { c })
}

/// Group and version of a module name: the version is the last dotted part
/// that names a version (`v` and a digit, `v0`, `crossplane` or
/// `resource`), the group everything before it; without one the whole name
/// is the group and the version is `v1`.
pub open spec fn registry_module_name_spec(name: Seq<char>) -> (Seq<char>, Seq<char>) {
    let parts = split_spec(name, '.');
    match rposition(parts, version_pred()) {
        Some(i) => (join_spec(parts.take(i), "."@), parts[i]),
        None => (name, "v1"@),
    }
}

/// Top-level domains recognised when splitting a group.
pub open spec fn registry_tld(t: Seq<char>) -> bool {
    t == "io"@ || t == "com"@ || t == "org"@ || t == "net"@ || t == "dev"@ || t == "app"@
}

/// Domain and namespace of a group: `local://`/`core` for the empty group,
/// `k8s.io`/`core` for `k8s.io`, the last two dotted parts and the rest
/// (or `default`) under a known top-level domain, otherwise a local
/// package.
pub open spec fn registry_domain_namespace_spec(group: Seq<char>) -> (Seq<char>, Seq<char>) {
    let parts = split_spec(group, '.');
    if group.len() == 0 {
        ("local://"@, "core"@)
    } else if group == "k8s.io"@ {
        ("k8s.io"@, "core"@)
    } else if parts.len() >= 2 && registry_tld(parts.last()) {
        (
            join_spec(parts.skip(parts.len() - 2), "."@),
            if parts.len() > 2 {
                join_spec(parts.take(parts.len() - 2), "."@)
            } else {
                "default"@
            },
        )
    } else {
        ("local://"@ + group, "default"@)
    }
}

/// The layout guessed from a group's domain and namespace.
pub open spec fn detect_layout_spec(group: Seq<char>) -> ModuleLayout {
    let (d, ns) = registry_domain_namespace_spec(group);
    if d == "k8s.io"@ {
        ModuleLayout::MixedRoot
    } else if crate::text::is_suffix(".io"@, d) && ns != "default"@ && ns != "core"@ {
        ModuleLayout::NamespacedFlat
    } else if is_prefix("local://"@, d) {
        ModuleLayout::Flat
    } else {
        ModuleLayout::MixedRoot
    }
}

/// Package root and module path (as components) of a group and version:
/// Kubernetes API groups under `k8s_io/<group>/<version>` (core directly
/// under `k8s_io`), apimachinery packages under `k8s_io/apimachinery/...`,
/// Crossplane groups under `crossplane/<group>` without versions, and other
/// groups under the group with `.` replaced by `_`.
pub open spec fn calculate_paths_spec(group: Seq<char>, version: Seq<char>) -> (Seq<Seq<char>>, Seq<Seq<char>>) {
    if is_prefix("io.k8s.api."@, group) {
        let api = group.skip("io.k8s.api."@.len() as int);
        let root = seq!["k8s_io"@];
        let base = if api.len() > 0 && api != "core"@ {
            root + components(api)
        } else {
            root
        };
        (root, base + components(version))
    } else if is_prefix("io.k8s.apimachinery."@, group) {
        let sub = map_char(group.skip("io.k8s.apimachinery."@.len() as int), '.', '/');
        (seq!["k8s_io"@], seq!["k8s_io"@, "apimachinery"@] + components(sub) + components(version))
    } else if contains_seq(group, "crossplane.io"@) {
        let root = seq!["crossplane"@] + components(group);
        (root, root)
    } else if group == "k8s.io"@ {
        (seq!["k8s_io"@], seq!["k8s_io"@] + components(version))
    } else {
        let root = components(map_char(group, '.', '_'));
        (root, root + components(version))
    }
}

/// How many directories the file of a module sits below its package root.
pub open spec fn fs_depth_spec(m: Seq<char>) -> nat {
    if m == "k8s.io.version"@ {
        0
    } else if is_prefix("k8s.io."@, m) {
        2
    } else if m == "apimachinery.pkg.runtime"@ {
        1
    } else if m == "apimachinery.pkg.util.intstr"@ {
        2
    } else if m == "apimachinery.pkg.api.resource"@ {
        2
    } else if is_prefix("apiextensions-apiserver.pkg.apis."@, m) {
        2
    } else if is_prefix("kube-aggregator.pkg.apis."@, m) {
        2
    } else if is_prefix("apimachinery.pkg.apis.meta."@, m) {
        3
    } else if is_prefix("apimachinery.pkg.apis.runtime."@, m) {
        3
    } else if is_prefix("io.k8s."@, m) {
        (split_spec(m, '.').len() - 1) as nat
    } else {
        1
    }
}

/// `n` copies of `..`.
pub open spec fn dotdots(n: nat) -> Seq<Seq<char>> {
    Seq::new(n, |i: int| ".."@)
}

/// `.` for depth zero, otherwise `..` repeated `depth` times, joined with `/`.
pub open spec fn parent_path_spec(depth: nat) -> Seq<char> {
    if depth == 0 {
        "."@
    } else {
        join_spec(dotdots(depth), "/"@)
    }
}

/// The lower-cased names of the apimachinery meta types.
pub open spec fn meta_type_lower(tl: Seq<char>) -> bool {
    ||| tl == "objectmeta"@
    ||| tl == "labelselector"@
    ||| tl == "listmeta"@
    ||| tl == "time"@
    ||| tl == "condition"@
    ||| tl == "managedfieldsentry"@
    ||| tl == "microtime"@
    ||| tl == "deletionoptions"@
    ||| tl == "ownerreference"@
    ||| tl == "status"@
    ||| tl == "statusdetails"@
    ||| tl == "statuscause"@
}

/// The path to a type of a Kubernetes module, which lives in consolidated
/// files: meta types in `apimachinery.pkg.apis/meta/<version>/mod.ncl`,
/// core types in `api/core/<version>.ncl`, other API groups in
/// `api/<group>/<version>.ncl`, runtime types in `v0/mod.ncl`; from a
/// non-Kubernetes package the path goes through `k8s_io/`.
pub open spec fn k8s_consolidated_path(
    f: ModuleInfoView,
    t: ModuleInfoView,
    from: Seq<char>,
    to: Seq<char>,
    ty: Seq<char>,
) -> Option<Seq<char>> {
    let cross = !is_prefix("k8s.io"@, f.domain) && !is_prefix("io.k8s."@, f.domain) && !is_prefix(
        "k8s.io"@,
        from,
    ) && !is_prefix("io.k8s."@, from) && !is_prefix("apimachinery."@, from);
    let pre = parent_path_spec(fs_depth_spec(from)) + "/"@ + if cross {
        "k8s_io/"@
    } else {
        Seq::<char>::empty()
    };
    let tl = unicode_str_lowercase(ty);
    let v = t.version;
    if meta_type_lower(tl) {
        Some(pre + "apimachinery.pkg.apis/meta/"@ + v + "/mod.ncl"@)
    } else if tl == "typedlocalobjectreference"@ {
        Some(pre + "api/core/"@ + v + ".ncl"@)
    } else if tl == "intorstring"@ || tl == "rawextension"@ {
        Some(pre + "v0/mod.ncl"@)
    } else if to == "k8s.io.v1"@ {
        Some(pre + "api/core/"@ + v + ".ncl"@)
    } else if is_prefix("k8s.io."@, to) {
        let parts = split_spec(to, '.');
        if parts.len() >= 3 {
            Some(pre + "api/"@ + parts[2] + "/"@ + v + ".ncl"@)
        } else {
            None
        }
    } else if is_prefix("io.k8s.api.core"@, to) {
        Some(pre + "api/core/"@ + v + ".ncl"@)
    } else if is_prefix("io.k8s.api."@, to) {
        let parts = split_spec(to, '.');
        if parts.len() >= 4 {
            Some(pre + "api/"@ + parts[3] + "/"@ + v + ".ncl"@)
        } else {
            None
        }
    } else if is_prefix("io.k8s.apimachinery.pkg.apis.meta"@, to) {
        Some(pre + "apimachinery.pkg.apis/meta/"@ + v + ".ncl"@)
    } else if is_prefix("io.k8s.kube-aggregator"@, to) {
        Some(pre + "kube-aggregator.pkg.apis/apiregistration/"@ + v + ".ncl"@)
    } else if is_prefix("io.k8s.apiextensions-apiserver"@, to) {
        Some(pre + "apiextensions-apiserver.pkg.apis/apiextensions/"@ + v + ".ncl"@)
    } else {
        None
    }
}

/// The names of registered modules, in order.
pub open spec fn module_names(mods: Seq<ModuleInfoView>) -> Seq<Seq<char>> {
    mods.map_values(|m: ModuleInfoView| m.name)
}

/// The import path of type `ty` of module `to` seen from module `from`:
/// `None` unless both modules are registered and `to` holds the type; a
/// file of the same module; a consolidated Kubernetes file; a sibling
/// version directory within the same domain and namespace; otherwise up to
/// the packages root and down the target module's path.
pub open spec fn import_path_spec(mods: Seq<ModuleInfoView>, from: Seq<char>, to: Seq<char>, ty: Seq<char>) -> Option<Seq<char>> {
    match (last_index_of(module_names(mods), from), last_index_of(module_names(mods), to)) {
        (Some(fi), Some(ti)) => {
            let f = mods[fi];
            let t = mods[ti];
            if !t.type_names.contains(ty) {
                None
            } else if from == to {
                Some("./"@ + ty + ".ncl"@)
            } else {
                let k8s_target = t.domain == "k8s.io"@ || is_prefix("io.k8s."@, t.domain) || is_prefix(
                    "io.k8s."@,
                    to,
                );
                match if k8s_target {
                    k8s_consolidated_path(f, t, from, to, ty)
                } else {
                    None
                } {
                    Some(p) => Some(p),
                    None => if f.domain == t.domain && f.namespace == t.namespace {
                        Some("../"@ + t.version + "/"@ + ty + ".ncl"@)
                    } else {
                        Some(join_spec(dotdots(f.path.len()) + t.path, "/"@) + "/"@ + ty + ".ncl"@)
                    },
                }
            }
        },
        _ => None,
    }
}

// ---------------------------------------------------------------------------
// Operations
// ---------------------------------------------------------------------------

/// The non-empty pieces of a list of strings.
fn nonempty_strings(parts: &Vec<String>) -> (r: Vec<String>)
    ensures
        views(r@) == nonempty_parts(views(parts@)),
{
    let ghost ps = views(parts@);
    let mut r: Vec<String> = Vec::new();
    let mut i: usize = 0;
    assert(ps.take(0) =~= Seq::<Seq<char>>::empty());
    while i < parts.len()
        invariant
            ps == views(parts@),
            i <= parts.len(),
            views(r@) == nonempty_parts(ps.take(i as int)),
        decreases parts.len() - i,
    {
        let ghost r0 = r@;
        assert(ps.take(i + 1).drop_last() =~= ps.take(i as int));
        assert(ps.take(i + 1).last() == parts@[i as int]@);
        if chars_of(parts[i].as_str()).len() > 0 {
            let c = parts[i].clone();
            r.push(c);
            assert(views(r@) =~= views(r0).push(c@));
        }
        i = i + 1;
    }
    assert(ps.take(parts.len() as int) =~= ps);
    r
}

/// The components of a `/`-separated path.
pub fn path_components(s: &str) -> (r: Vec<String>)
    ensures
        views(r@) == components(s@),
{
    let parts = split_char(s, '/');
    nonempty_strings(&parts)
}

/// `s` with every `from` character replaced by `to`.
fn replace_char(s: &str, from: char, to: char) -> (r: String)
    ensures
        r@ == map_char(s@, from, to),
{
    let cs = chars_of(s);
    let ghost target = map_char(s@, from, to);
    let mut r = String::new();
    let mut i: usize = 0;
    while i < cs.len()
        invariant
            cs@ == s@,
            target == map_char(s@, from, to),
            i <= cs.len(),
            r@ == target.take(i as int),
        decreases cs.len() - i,
    {
        let c = cs[i];
        let d = if c == from {
            to
        } else {
            c
        };
        push_char(&mut r, d);
        assert(target.take(i + 1) =~= target.take(i as int).push(d));
        i = i + 1;
    }
    assert(target.take(cs.len() as int) =~= target);
    r
}

/// `a` followed by `b`, as component lists.
fn append_components(a: &mut Vec<String>, b: Vec<String>)
    ensures
        views(final(a)@) == views(old(a)@) + views(b@),
{
    let mut b = b;
    let ghost a0 = a@;
    let ghost b0 = b@;
    a.append(&mut b);
    assert(views(a@) =~= views(a0) + views(b0));
}

fn one_component(s: &str) -> (r: Vec<String>)
    ensures
        views(r@) == seq![s@],
{
    let mut r: Vec<String> = Vec::new();
    r.push(to_owned_string(s));
    assert(views(r@) =~= seq![s@]);
    r
}

fn copy_strings(v: &Vec<String>) -> (r: Vec<String>)
    ensures
        views(r@) == views(v@),
{
    crate::text::clone_strings(v)
}

/// The names of type definitions, in order.
pub open spec fn type_names_of(types: Seq<TypeDefinition>) -> Seq<Seq<char>> {
    types.map_values(|t: TypeDefinition| t.name@)
}

/// The information a module is registered with: group and version from
/// its name, domain and namespace, layout and paths from the group, and
/// the names of its types.
pub open spec fn module_entry(module: Module) -> ModuleInfoView {
    let (group, version) = registry_module_name_spec(module.name@);
    let (domain, namespace) = registry_domain_namespace_spec(group);
    let (root, path) = calculate_paths_spec(group, version);
    ModuleInfoView {
        name: module.name@,
        domain,
        namespace,
        group,
        version,
        layout: detect_layout_spec(group),
        path,
        package_root: root,
        type_names: type_names_of(module.types@),
    }
}

/// The registered modules after registering `info`: it replaces the entry
/// of the same name, or comes last.
pub open spec fn registered(mods: Seq<ModuleInfoView>, info: ModuleInfoView) -> Seq<ModuleInfoView> {
    match last_index_of(module_names(mods), info.name) {
        Some(i) => mods.update(i, info),
        None => mods.push(info),
    }
}

/// The values of module informations.
pub open spec fn infos_view(v: Seq<ModuleInfo>) -> Seq<ModuleInfoView> {
    v.map_values(|m: ModuleInfo| m@)
}

/// The position of the last module of this name.
fn find_module(modules: &Vec<ModuleInfo>, module_name: &str) -> (r: Option<usize>)
    ensures
        match r {
            Some(i) => last_index_of(module_names(infos_view(modules@)), module_name@) == Some(i as int) && i
                < modules@.len(),
            None => last_index_of(module_names(infos_view(modules@)), module_name@) is None,
        },
{
    let ghost names = module_names(infos_view(modules@));
    let mut j: usize = modules.len();
    assert(names.take(j as int) =~= names);
    while j > 0
        invariant
            names == module_names(infos_view(modules@)),
            names.len() == modules.len(),
            j <= modules.len(),
            last_index_of(names, module_name@) == last_index_of(names.take(j as int), module_name@),
        decreases j,
    {
        assert(names[j - 1] == modules@[j - 1].name@);
        if str_eq(modules[j - 1].name.as_str(), module_name) {
            assert(names.take(j as int).last() == module_name@);
            return Some(j - 1);
        }
        assert(names.take(j as int).drop_last() =~= names.take(j - 1));
        j = j - 1;
    }
    None
}

/// The names of the nodes listed in `order`.
pub open spec fn node_names(nodes: Seq<ModuleInfoView>, order: Seq<usize>) -> Seq<Seq<char>> {
    order.map_values(|i: usize| nodes[i as int].name)
}

/// The values of lists of strings.
pub open spec fn string_lists_view(v: Seq<Vec<String>>) -> Seq<Seq<Seq<char>>> {
    v.map_values(|x: Vec<String>| views(x@))
}

/// The components of more than one node, in order.
pub open spec fn multi_node_components(comps: Seq<Seq<usize>>) -> Seq<Seq<usize>>
    decreases comps.len(),
{
    if comps.len() == 0 {
        Seq::empty()
    } else {
        multi_node_components(comps.drop_last()) + if comps.last().len() > 1 {
            seq![comps.last()]
        } else {
            Seq::empty()
        }
    }
}

/// `e` reports a circular dependency with message `msg`.
pub open spec fn circular(e: CoreError, msg: Seq<char>) -> bool {
    e matches CoreError::CircularDependency(m) && m@ == msg
}

/// The edges after adding one from the module named `from` to the module
/// named `to`: none is added unless both are nodes.
pub open spec fn edges_after(
    names: Seq<Seq<char>>,
    edges: Seq<(usize, usize)>,
    from: Seq<char>,
    to: Seq<char>,
) -> Seq<(usize, usize)> {
    match (last_index_of(names, from), last_index_of(names, to)) {
        (Some(a), Some(b)) => edges.push((a as usize, b as usize)),
        _ => edges,
    }
}

/// The edge types after adding an edge of type `t` between the modules
/// named `from` and `to`.
pub open spec fn edge_types_after(
    names: Seq<Seq<char>>,
    types: Seq<DependencyType>,
    from: Seq<char>,
    to: Seq<char>,
    t: DependencyType,
) -> Seq<DependencyType> {
    match (last_index_of(names, from), last_index_of(names, to)) {
        (Some(_), Some(_)) => types.push(t),
        _ => types,
    }
}

impl ModuleInfo {
    /// A copy of this information.
    pub fn duplicate(&self) -> (r: ModuleInfo)
        ensures
            r@ == self@,
    {
        ModuleInfo {
            name: self.name.clone(),
            domain: self.domain.clone(),
            namespace: self.namespace.clone(),
            group: self.group.clone(),
            version: self.version.clone(),
            layout: self.layout,
            path: copy_strings(&self.path),
            package_root: copy_strings(&self.package_root),
            type_names: copy_strings(&self.type_names),
        }
    }
}

/// Whether a module probably refers to another, judging by their names:
/// any module to a `meta.v1` or `apimachinery` module, `apps` and `batch`
/// modules to `core` modules.
pub open spec fn might_reference_spec(from: Seq<char>, to: Seq<char>) -> bool {
    contains_seq(to, "meta.v1"@) || contains_seq(to, "apimachinery"@) || (contains_seq(from, "apps"@)
        && contains_seq(to, "core"@)) || (contains_seq(from, "batch"@) && contains_seq(to, "core"@))
}

/// `acc` with the references of module `i` to the first `j` modules added.
pub open spec fn reference_row(names: Seq<Seq<char>>, acc: Seq<(usize, usize)>, i: int, j: int) -> Seq<(usize, usize)>
    decreases j,
{
    if j <= 0 {
        acc
    } else {
        let prev = reference_row(names, acc, i, j - 1);
        if names[i] != names[j - 1] && might_reference_spec(names[i], names[j - 1]) {
            edges_after(names, prev, names[i], names[j - 1])
        } else {
            prev
        }
    }
}

/// The references of the first `i` modules to the others, module by
/// module.
pub open spec fn reference_edges(names: Seq<Seq<char>>, i: int) -> Seq<(usize, usize)>
    decreases i,
{
    if i <= 0 {
        Seq::empty()
    } else {
        reference_row(names, reference_edges(names, i - 1), i - 1, names.len() as int)
    }
}

/// The number of reference edges among the modules.
pub open spec fn reference_edge_count(mods: Seq<ModuleInfoView>) -> nat {
    reference_edges(module_names(mods), mods.len() as int).len()
}

/// The modules and their reference edges fit the graph: petgraph takes at
/// most `u32::MAX` nodes and `u32::MAX` edges.
pub open spec fn within_graph_limits(mods: Seq<ModuleInfoView>) -> bool {
    mods.len() <= u32::MAX && reference_edge_count(mods) <= u32::MAX
}

/// Adding an edge never removes one, and adds one when both names are
/// nodes.
proof fn lemma_edges_after_len(names: Seq<Seq<char>>, e: Seq<(usize, usize)>, a: Seq<char>, b: Seq<char>)
    ensures
        edges_after(names, e, a, b).len() >= e.len(),
        names.contains(a) && names.contains(b) ==> edges_after(names, e, a, b).len() == e.len() + 1,
{
    lemma_last_index_of(names, a);
    lemma_last_index_of(names, b);
}

/// A row of references only grows.
proof fn lemma_reference_row_grows(names: Seq<Seq<char>>, acc: Seq<(usize, usize)>, i: int, j: int, k: int)
    requires
        0 <= j <= k,
    ensures
        reference_row(names, acc, i, j).len() <= reference_row(names, acc, i, k).len(),
    decreases k,
{
    if j < k {
        lemma_reference_row_grows(names, acc, i, j, k - 1);
        let prev = reference_row(names, acc, i, k - 1);
        lemma_edges_after_len(names, prev, names[i], names[k - 1]);
    }
}

/// The references of more modules are more.
proof fn lemma_reference_edges_grow(names: Seq<Seq<char>>, i: int, k: int)
    requires
        0 <= i <= k,
    ensures
        reference_edges(names, i).len() <= reference_edges(names, k).len(),
    decreases k,
{
    if i < k {
        lemma_reference_edges_grow(names, i, k - 1);
        lemma_reference_row_grows(names, reference_edges(names, k - 1), k - 1, 0, names.len() as int);
    }
}

/// The edges a sequence of recorded dependencies adds, one after another.
pub open spec fn recorded_edges(
    names: Seq<Seq<char>>,
    records: Seq<(Seq<char>, Seq<char>, DependencyType)>,
) -> Seq<(usize, usize)>
    decreases records.len(),
{
    if records.len() == 0 {
        Seq::empty()
    } else {
        let r = records.last();
        edges_after(names, recorded_edges(names, records.drop_last()), r.0, r.1)
    }
}

/// The edge types a sequence of recorded dependencies adds.
pub open spec fn recorded_types(
    names: Seq<Seq<char>>,
    records: Seq<(Seq<char>, Seq<char>, DependencyType)>,
) -> Seq<DependencyType>
    decreases records.len(),
{
    if records.len() == 0 {
        Seq::empty()
    } else {
        let r = records.last();
        edge_types_after(names, recorded_types(names, records.drop_last()), r.0, r.1, r.2)
    }
}

/// The registered modules after registering each of `ms` in turn.
pub open spec fn registered_all(mods: Seq<ModuleInfoView>, ms: Seq<Module>) -> Seq<ModuleInfoView>
    decreases ms.len(),
{
    if ms.len() == 0 {
        mods
    } else {
        registered(registered_all(mods, ms.drop_last()), module_entry(ms.last()))
    }
}

/// A registry's data, for inspection.
#[derive(Debug)]
pub struct ModuleRegistryDebugData {
    /// The registered modules.
    pub modules: Vec<ModuleInfo>,
    /// The dependency edges between modules.
    pub dependency_edges: Vec<DependencyEdge>,
    /// The dependency cycles found.
    pub cycles: Vec<Vec<String>>,
}

/// A dependency between two modules, by name.
#[derive(Debug, Clone)]
pub struct DependencyEdge {
    pub from: String,
    pub to: String,
    pub dep_type: DependencyType,
}

impl View for DependencyEdge {
    type V = (Seq<char>, Seq<char>, DependencyType);

    open spec fn view(&self) -> (Seq<char>, Seq<char>, DependencyType) {
        (self.from@, self.to@, self.dep_type)
    }
}

/// The dependency graph of modules: node `i` stands for the `i`-th module
/// added, edge `k` has the `k`-th dependency type.
#[derive(Debug)]
pub struct ModuleDependencyGraph {
    graph: petgraph::graph::DiGraph<(), ()>,
    modules: Vec<ModuleInfo>,
    dep_types: Vec<DependencyType>,
}

impl ModuleDependencyGraph {
    /// One module per node and one type per edge; edges join nodes. Every
    /// graph keeps this.
    #[verifier::type_invariant]
    pub closed spec fn wf(&self) -> bool {
        &&& digraph_size(self.graph) == self.modules@.len()
        &&& digraph_edges(self.graph).len() == self.dep_types@.len()
        &&& digraph_edges(self.graph).len() <= u32::MAX
        &&& edges_within(digraph_size(self.graph), digraph_edges(self.graph))
    }

    /// The modules, by node number.
    pub closed spec fn nodes(&self) -> Seq<ModuleInfoView> {
        infos_view(self.modules@)
    }

    /// The edges, in the order they were added.
    pub closed spec fn edges(&self) -> Seq<(usize, usize)> {
        digraph_edges(self.graph)
    }

    /// The dependency type of each edge.
    pub closed spec fn edge_types(&self) -> Seq<DependencyType> {
        self.dep_types@
    }

    /// A graph without modules.
    pub fn new() -> (r: Self)
        ensures
            r.wf(),
            r.nodes().len() == 0,
            r.edges().len() == 0,
            r.edge_types().len() == 0,
    {
        let r = ModuleDependencyGraph { graph: digraph_new(), modules: Vec::new(), dep_types: Vec::new() };
        assert(r.nodes() =~= Seq::<ModuleInfoView>::empty());
        r
    }

    /// Add a module as a new node and return its number.
    pub fn add_module(&mut self, module: ModuleInfo) -> (r: usize)
        requires
            old(self).nodes().len() < u32::MAX,
        ensures
            final(self).wf(),
            r == old(self).nodes().len(),
            final(self).nodes() == old(self).nodes().push(module@),
            final(self).edges() == old(self).edges(),
            final(self).edge_types() == old(self).edge_types(),
    {
        proof {
            use_type_invariant(&*self);
        }
        let ghost m = module@;
        let mut g = ModuleDependencyGraph::new();
        std::mem::swap(self, &mut g);
        proof {
            use_type_invariant(&g);
        }
        let ModuleDependencyGraph { mut graph, mut modules, dep_types } = g;
        let idx = digraph_add_node(&mut graph);
        modules.push(module);
        *self = ModuleDependencyGraph { graph, modules, dep_types };
        assert(self.nodes() =~= old(self).nodes().push(m));
        idx
    }

    /// Add a dependency between the modules named `from` and `to`; nothing
    /// happens unless both are nodes (the last node of a name counts).
    pub fn add_dependency(&mut self, from: &str, to: &str, dep_type: DependencyType)
        requires
            old(self).edges().len() < u32::MAX,
        ensures
            final(self).wf(),
            final(self).nodes() == old(self).nodes(),
            final(self).edges() == edges_after(module_names(old(self).nodes()), old(self).edges(), from@, to@),
            final(self).edge_types() == edge_types_after(
                module_names(old(self).nodes()),
                old(self).edge_types(),
                from@,
                to@,
                dep_type,
            ),
    {
        proof {
            use_type_invariant(&*self);
        }
        let a = find_module(&self.modules, from);
        let b = find_module(&self.modules, to);
        match (a, b) {
            (Some(a), Some(b)) => {
                let mut g = ModuleDependencyGraph::new();
                std::mem::swap(self, &mut g);
                proof {
                    use_type_invariant(&g);
                }
                let ModuleDependencyGraph { mut graph, modules, mut dep_types } = g;
                digraph_add_edge(&mut graph, a, b);
                dep_types.push(dep_type);
                *self = ModuleDependencyGraph { graph, modules, dep_types };
            },
            _ => {},
        }
    }

    /// `r` is what sorting the graph gives: the names in `petgraph`'s
    /// topological order when there is no cycle, a circular-dependency
    /// error when there is one.
    pub open spec fn sorted(&self, r: Result<Vec<String>, CoreError>) -> bool {
        match r {
            Ok(names) => {
                &&& !has_cycle(self.nodes().len(), self.edges())
                &&& views(names@) == node_names(self.nodes(), petgraph_toposort(self.nodes().len(), self.edges()))
                &&& is_topological_order(
                    self.nodes().len(),
                    self.edges(),
                    petgraph_toposort(self.nodes().len(), self.edges()),
                )
            },
            Err(e) => has_cycle(self.nodes().len(), self.edges()) && circular(
                e,
                "Circular dependency detected in modules"@,
            ),
        }
    }

    /// `r` lists the names of the strongly connected components of more
    /// than one module.
    pub open spec fn cycles(&self, r: Seq<Seq<Seq<char>>>) -> bool {
        r == multi_node_components(petgraph_scc(self.nodes().len(), self.edges())).map_values(
            |c: Seq<usize>| node_names(self.nodes(), c),
        )
    }

    /// The graph of the name-based references between `mods`, every edge a
    /// type reference.
    pub open spec fn is_reference_graph_of(&self, mods: Seq<ModuleInfoView>) -> bool {
        &&& self.nodes() == mods
        &&& self.edges() == reference_edges(module_names(mods), mods.len() as int)
        &&& self.edge_types().len() == self.edges().len()
        &&& forall|k: int| 0 <= k < self.edge_types().len() ==> #[trigger] self.edge_types()[k] is TypeReference
    }

    /// The edges as (from name, to name, type), in order.
    pub open spec fn edge_records(&self) -> Seq<(Seq<char>, Seq<char>, DependencyType)> {
        Seq::new(
            self.edges().len(),
            |k: int| (self.nodes()[self.edges()[k].0 as int].name, self.nodes()[self.edges()[k].1 as int].name, self.edge_types()[k]),
        )
    }

    /// The names of the modules that depend on the module named `name`
    /// (most recent dependency first); none for an unknown name.
    pub fn dependents_of(&self, name: &str) -> (r: Vec<String>)
        ensures
            match last_index_of(module_names(self.nodes()), name@) {
                Some(i) => views(r@) == node_names(self.nodes(), predecessors(self.edges(), i as usize)),
                None => r@.len() == 0,
            },
    {
        proof {
            use_type_invariant(self);
        }
        match find_module(&self.modules, name) {
            Some(i) => {
                let preds = digraph_predecessors(&self.graph, i);
                proof {
                    lemma_neighbors_within(digraph_size(self.graph), digraph_edges(self.graph), i);
                }
                self.names_at(&preds)
            },
            None => Vec::new(),
        }
    }

    /// The names of the modules the module named `name` depends on (most
    /// recent dependency first); none for an unknown name.
    pub fn dependencies_of(&self, name: &str) -> (r: Vec<String>)
        ensures
            match last_index_of(module_names(self.nodes()), name@) {
                Some(i) => views(r@) == node_names(self.nodes(), successors(self.edges(), i as usize)),
                None => r@.len() == 0,
            },
    {
        proof {
            use_type_invariant(self);
        }
        match find_module(&self.modules, name) {
            Some(i) => {
                let succs = digraph_successors(&self.graph, i);
                proof {
                    lemma_neighbors_within(digraph_size(self.graph), digraph_edges(self.graph), i);
                }
                self.names_at(&succs)
            },
            None => Vec::new(),
        }
    }

    /// The edges as records of names and types, in order.
    pub fn edge_list(&self) -> (r: Vec<DependencyEdge>)
        ensures
            r@.map_values(|e: DependencyEdge| e@) == self.edge_records(),
    {
        proof {
            use_type_invariant(self);
        }
        let mut out: Vec<DependencyEdge> = Vec::new();
        let mut k: usize = 0;
        while k < self.dep_types.len()
            invariant
                self.wf(),
                k <= self.dep_types.len(),
                out@.map_values(|e: DependencyEdge| e@) == self.edge_records().take(k as int),
            decreases self.dep_types.len() - k,
        {
            let (a, b) = match digraph_edge_at(&self.graph, k) {
                Some(e) => e,
                None => (0, 0),
            };
            assert(self.edges()[k as int] == (a, b));
            assert(a < self.modules@.len() && b < self.modules@.len());
            let e = DependencyEdge {
                from: self.modules[a].name.clone(),
                to: self.modules[b].name.clone(),
                dep_type: self.dep_types[k],
            };
            let ghost o0 = out@;
            out.push(e);
            assert(out@.map_values(|e: DependencyEdge| e@) =~= o0.map_values(|e: DependencyEdge| e@).push(e@));
            assert(self.edge_records().take(k + 1) =~= self.edge_records().take(k as int).push(self.edge_records()[k as int]));
            k = k + 1;
        }
        assert(self.edge_records().take(k as int) =~= self.edge_records());
        out
    }

    /// The names of the nodes listed in `order`.
    fn names_at(&self, order: &Vec<usize>) -> (r: Vec<String>)
        requires
            self.wf(),
            forall|k: int| 0 <= k < order@.len() ==> order@[k] < self.nodes().len(),
        ensures
            views(r@) == node_names(self.nodes(), order@),
    {
        let mut out: Vec<String> = Vec::new();
        let mut k: usize = 0;
        while k < order.len()
            invariant
                self.wf(),
                forall|k: int| 0 <= k < order@.len() ==> order@[k] < self.nodes().len(),
                k <= order.len(),
                views(out@) == node_names(self.nodes(), order@.take(k as int)),
            decreases order.len() - k,
        {
            let ghost o0 = out@;
            let i = order[k];
            assert(self.nodes()[i as int] == self.modules@[i as int]@);
            out.push(self.modules[i].name.clone());
            assert(views(out@) =~= views(o0).push(self.nodes()[i as int].name));
            assert(node_names(self.nodes(), order@.take(k + 1)) =~= node_names(self.nodes(), order@.take(k as int)).push(
                self.nodes()[i as int].name,
            ));
            k = k + 1;
        }
        assert(order@.take(order.len() as int) =~= order@);
        out
    }

    /// The module names in dependency order (each module before those its
    /// edges lead to), or a circular-dependency error when the graph has a
    /// cycle.
    pub fn topological_sort(&self) -> (r: Result<Vec<String>, CoreError>)
        ensures
            self.sorted(r),
    {
        proof {
            use_type_invariant(self);
        }
        if digraph_is_cyclic(&self.graph) {
            return Err(CoreError::CircularDependency(to_owned_string("Circular dependency detected in modules")));
        }
        match digraph_toposort(&self.graph) {
            Some(order) => Ok(self.names_at(&order)),
            None => Err(CoreError::CircularDependency(to_owned_string("Failed to sort modules"))),
        }
    }

    /// The strongly connected components of more than one module, as module
    /// names; when there is one, the graph has a cycle.
    pub fn detect_cycles(&self) -> (r: Vec<Vec<String>>)
        ensures
            self.cycles(string_lists_view(r@)),
            r@.len() > 0 ==> has_cycle(self.nodes().len(), self.edges()),
    {
        proof {
            use_type_invariant(self);
        }
        let comps = digraph_scc(&self.graph);
        let ghost cs = comps@.map_values(|c: Vec<usize>| c@);
        let ghost n = self.nodes().len();
        let mut out: Vec<Vec<String>> = Vec::new();
        let mut i: usize = 0;
        assert(cs.take(0) =~= Seq::<Seq<usize>>::empty());
        while i < comps.len()
            invariant
                self.wf(),
                n == self.nodes().len(),
                cs == comps@.map_values(|c: Vec<usize>| c@),
                cs == petgraph_scc(n, self.edges()),
                crate::digraph::is_scc_partition(n, self.edges(), cs),
                i <= comps.len(),
                string_lists_view(out@) == multi_node_components(cs.take(i as int)).map_values(
                    |c: Seq<usize>| node_names(self.nodes(), c),
                ),
                out@.len() > 0 ==> has_cycle(n, self.edges()),
            decreases comps.len() - i,
        {
            let ghost o0 = out@;
            assert(cs.take(i + 1).drop_last() =~= cs.take(i as int));
            assert(cs.take(i + 1).last() == cs[i as int]);
            if comps[i].len() > 1 {
                assert(cs[i as int] == comps@[i as int]@);
                assert forall|k: int| 0 <= k < comps@[i as int]@.len() implies comps@[i as int]@[k] < self.nodes().len() by {
                    assert(cs[i as int][k] == comps@[i as int]@[k]);
                }
                let names = self.names_at(&comps[i]);
                proof {
                    lemma_component_cycle(n, self.edges(), cs, i as int);
                }
                out.push(names);
                assert(string_lists_view(out@) =~= string_lists_view(o0).push(views(names@)));
            }
            assert(multi_node_components(cs.take(i + 1)).map_values(|c: Seq<usize>| node_names(self.nodes(), c))
                =~= string_lists_view(out@));
            i = i + 1;
        }
        assert(cs.take(comps.len() as int) =~= cs);
        out
    }
}

/// Registry for tracking modules and their locations.
#[derive(Debug)]
pub struct ModuleRegistry {
    /// Module information, one entry per module name.
    modules: Vec<ModuleInfo>,
    /// The dependency graph, once built.
    dependency_graph: Option<ModuleDependencyGraph>,
}

impl ModuleRegistry {
    /// The registered modules, in registration order.
    pub closed spec fn module_views(&self) -> Seq<ModuleInfoView> {
        infos_view(self.modules@)
    }

    /// The dependency graph, if it was built.
    pub closed spec fn graph(&self) -> Option<ModuleDependencyGraph> {
        self.dependency_graph
    }

    /// A built dependency graph is well formed.
    pub open spec fn wf(&self) -> bool {
        self.graph() matches Some(g) ==> g.wf()
    }

    /// Every registry is well formed: its dependency graph keeps its own
    /// invariant.
    fn graph_ok(&self)
        ensures
            self.wf(),
    {
        match &self.dependency_graph {
            Some(g) => {
                proof {
                    use_type_invariant(g);
                }
            },
            None => {},
        }
    }

    /// An empty registry, without a dependency graph.
    pub fn new() -> (r: ModuleRegistry)
        ensures
            r.wf(),
            r.module_views().len() == 0,
            r.graph() is None,
    {
        let r = ModuleRegistry { modules: Vec::new(), dependency_graph: None };
        assert(r.module_views() =~= Seq::<ModuleInfoView>::empty());
        r
    }

    /// Group and version of a module name.
    pub fn parse_module_name(module_name: &str) -> (r: (String, String))
        ensures
            (r.0@, r.1@) == registry_module_name_spec(module_name@),
    {
        let parts = split_char(module_name, '.');
        let ghost ps = views(parts@);
        proof {
            lemma_rposition_range(ps, version_pred());
        }
        match rposition_version(&parts) {
            Some(i) => {
                let group = join_prefix(&parts, i);
                let version = parts[i].clone();
                (group, version)
            },
            None => {
                proof {
                    reveal_strlit("v1");
                }
                (to_owned_string(module_name), to_owned_string("v1"))
            },
        }
    }

    /// Domain and namespace of a group.
    pub fn extract_domain_namespace(group: &str) -> (r: (String, String))
        ensures
            (r.0@, r.1@) == registry_domain_namespace_spec(group@),
    {
        let parts = split_char(group, '.');
        let ghost ps = views(parts@);
        if chars_of(group).len() == 0 {
            return (to_owned_string("local://"), to_owned_string("core"));
        }
        if str_eq(group, "k8s.io") {
            return (to_owned_string("k8s.io"), to_owned_string("core"));
        }
        let n = parts.len();
        if n >= 2 {
            let tld = parts[n - 1].as_str();
            assert(ps.last() == tld@);
            if str_eq(tld, "io") || str_eq(tld, "com") || str_eq(tld, "org") || str_eq(tld, "net")
                || str_eq(tld, "dev") || str_eq(tld, "app") {
                let domain = join_range(&parts, n - 2, n, ".");
                assert(ps.subrange(n - 2, n as int) =~= ps.skip(n - 2));
                let namespace = if n > 2 {
                    join_prefix(&parts, n - 2)
                } else {
                    to_owned_string("default")
                };
                return (domain, namespace);
            }
        }
        (concat("local://", group), to_owned_string("default"))
    }

    /// The layout guessed from a group.
    pub fn detect_layout(group: &str) -> (r: ModuleLayout)
        ensures
            r == detect_layout_spec(group@),
    {
        let (domain, namespace) = Self::extract_domain_namespace(group);
        if str_eq(domain.as_str(), "k8s.io") {
            ModuleLayout::MixedRoot
        } else if crate::text::ends_with(domain.as_str(), ".io") && !str_eq(namespace.as_str(), "default")
            && !str_eq(namespace.as_str(), "core") {
            ModuleLayout::NamespacedFlat
        } else if starts_with(domain.as_str(), "local://") {
            ModuleLayout::Flat
        } else {
            ModuleLayout::MixedRoot
        }
    }

    /// Package root and module path of a group and version.
    pub fn calculate_paths(group: &str, version: &str) -> (r: (Vec<String>, Vec<String>))
        ensures
            (views(r.0@), views(r.1@)) == calculate_paths_spec(group@, version@),
    {
        proof {
            reveal_strlit("io.k8s.api.");
            reveal_strlit("io.k8s.apimachinery.");
        }
        let gs = chars_of(group);
        if starts_with(group, "io.k8s.api.") {
            let api = crate::text::string_of_range(&gs, 11, gs.len());
            assert(gs@.subrange(11, gs@.len() as int) =~= group@.skip(11));
            let root = one_component("k8s_io");
            let mut path = one_component("k8s_io");
            if chars_of(api.as_str()).len() > 0 && !str_eq(api.as_str(), "core") {
                append_components(&mut path, path_components(api.as_str()));
            }
            append_components(&mut path, path_components(version));
            return (root, path);
        }
        if starts_with(group, "io.k8s.apimachinery.") {
            let rest = crate::text::string_of_range(&gs, 20, gs.len());
            assert(gs@.subrange(20, gs@.len() as int) =~= group@.skip(20));
            let sub = replace_char(rest.as_str(), '.', '/');
            let root = one_component("k8s_io");
            let mut path = one_component("k8s_io");
            append_components(&mut path, one_component("apimachinery"));
            append_components(&mut path, path_components(sub.as_str()));
            append_components(&mut path, path_components(version));
            return (root, path);
        }
        if contains(group, "crossplane.io") {
            let mut root = one_component("crossplane");
            append_components(&mut root, path_components(group));
            let path = copy_strings(&root);
            return (root, path);
        }
        if str_eq(group, "k8s.io") {
            let root = one_component("k8s_io");
            let mut path = one_component("k8s_io");
            append_components(&mut path, path_components(version));
            return (root, path);
        }
        let flat = replace_char(group, '.', '_');
        let root = path_components(flat.as_str());
        let mut path = copy_strings(&root);
        append_components(&mut path, path_components(version));
        (root, path)
    }

    /// How many directories the file of a module sits below its package
    /// root.
    pub fn calculate_module_filesystem_depth(module_name: &str) -> (r: usize)
        ensures
            r == fs_depth_spec(module_name@),
    {
        if str_eq(module_name, "k8s.io.version") {
            0
        } else if starts_with(module_name, "k8s.io.") {
            2
        } else if str_eq(module_name, "apimachinery.pkg.runtime") {
            1
        } else if str_eq(module_name, "apimachinery.pkg.util.intstr") {
            2
        } else if str_eq(module_name, "apimachinery.pkg.api.resource") {
            2
        } else if starts_with(module_name, "apiextensions-apiserver.pkg.apis.") {
            2
        } else if starts_with(module_name, "kube-aggregator.pkg.apis.") {
            2
        } else if starts_with(module_name, "apimachinery.pkg.apis.meta.") {
            3
        } else if starts_with(module_name, "apimachinery.pkg.apis.runtime.") {
            3
        } else if starts_with(module_name, "io.k8s.") {
            let parts = split_char(module_name, '.');
            proof {
                lemma_split_nonempty(module_name@, '.');
            }
            parts.len() - 1
        } else {
            1
        }
    }

    /// `.` for depth zero, otherwise `..` repeated `depth` times with `/`.
    pub fn generate_parent_path(depth: usize) -> (r: String)
        ensures
            r@ == parent_path_spec(depth as nat),
    {
        if depth == 0 {
            return to_owned_string(".");
        }
        let mut parts: Vec<String> = Vec::new();
        let mut i: usize = 0;
        while i < depth
            invariant
                i <= depth,
                views(parts@) == dotdots(i as nat),
            decreases depth - i,
        {
            let ghost p0 = parts@;
            let d = to_owned_string("..");
            parts.push(d);
            assert(views(parts@) =~= views(p0).push(d@));
            assert(dotdots((i + 1) as nat) =~= dotdots(i as nat).push(".."@));
            i = i + 1;
        }
        join(&parts, "/")
    }

    /// The position of the module with this name.
    fn find(&self, module_name: &str) -> (r: Option<usize>)
        ensures
            match r {
                Some(i) => last_index_of(module_names(self.module_views()), module_name@) == Some(i as int)
                    && i < self.module_views().len(),
                None => last_index_of(module_names(self.module_views()), module_name@) is None,
            },
    {
        find_module(&self.modules, module_name)
    }

    /// The information of a registered module.
    pub fn get(&self, module_name: &str) -> (r: Option<&ModuleInfo>)
        ensures
            match last_index_of(module_names(self.module_views()), module_name@) {
                Some(i) => r matches Some(m) && m@ == self.module_views()[i],
                None => r is None,
            },
    {
        match self.find(module_name) {
            Some(i) => Some(&self.modules[i]),
            None => None,
        }
    }

    /// Register a module: group and version from its name, domain,
    /// namespace, layout and paths from the group, and the names of its
    /// types. A module registered again under the same name is replaced; a
    /// dependency graph already built is kept as it is.
    pub fn register_module(&mut self, module: &Module)
        ensures
            final(self).module_views() == registered(old(self).module_views(), module_entry(*module)),
            final(self).graph() == old(self).graph(),
    {
        let mut type_names: Vec<String> = Vec::new();
        let mut k: usize = 0;
        while k < module.types.len()
            invariant
                k <= module.types.len(),
                views(type_names@) == type_names_of(module.types@.take(k as int)),
            decreases module.types.len() - k,
        {
            let ghost t0 = type_names@;
            type_names.push(module.types[k].name.clone());
            assert(views(type_names@) =~= views(t0).push(module.types@[k as int].name@));
            assert(type_names_of(module.types@.take(k + 1)) =~= type_names_of(module.types@.take(k as int)).push(
                module.types@[k as int].name@,
            ));
            k = k + 1;
        }
        assert(module.types@.take(module.types.len() as int) =~= module.types@);
        let module_name = module.name.as_str();
        let (group, version) = Self::parse_module_name(module_name);
        let (domain, namespace) = Self::extract_domain_namespace(group.as_str());
        let layout = Self::detect_layout(group.as_str());
        let (package_root, path) = Self::calculate_paths(group.as_str(), version.as_str());
        let info = ModuleInfo {
            name: to_owned_string(module_name),
            domain,
            namespace,
            group,
            version,
            layout,
            path,
            package_root,
            type_names,
        };
        let ghost iv = info@;
        let ghost before = self.module_views();
        match self.find(module_name) {
            Some(i) => {
                self.modules.set(i, info);
                assert(self.module_views() =~= before.update(i as int, iv));
            },
            None => {
                self.modules.push(info);
                assert(self.module_views() =~= before.push(iv));
            },
        }
    }

    /// Build the dependency graph: every registered module a node, in
    /// registration order, and an edge of type `TypeReference` from each
    /// module to each other module it probably refers to by name.
    pub fn build_dependency_graph(&mut self)
        requires
            within_graph_limits(old(self).module_views()),
        ensures
            final(self).wf(),
            final(self).module_views() == old(self).module_views(),
            final(self).graph() matches Some(g) && g.is_reference_graph_of(old(self).module_views()),
    {
        let ghost n = self.modules@.len();
        let mut graph = ModuleDependencyGraph::new();
        let mut i: usize = 0;
        while i < self.modules.len()
            invariant
                graph.wf(),
                n == self.modules@.len(),
                n <= u32::MAX,
                i <= n,
                graph.nodes() == infos_view(self.modules@.take(i as int)),
                graph.edges().len() == 0,
                graph.edge_types().len() == 0,
            decreases n - i,
        {
            let m = self.modules[i].duplicate();
            graph.add_module(m);
            assert(infos_view(self.modules@.take(i + 1)) =~= infos_view(self.modules@.take(i as int)).push(
                self.modules@[i as int]@,
            ));
            i = i + 1;
        }
        assert(self.modules@.take(n as int) =~= self.modules@);
        self.analyze_dependencies(&mut graph);
        self.dependency_graph = Some(graph);
    }

    /// Add to `graph` an edge from each module to each other module it
    /// probably refers to.
    fn analyze_dependencies(&self, graph: &mut ModuleDependencyGraph)
        requires
            old(graph).wf(),
            old(graph).nodes() == self.module_views(),
            old(graph).edges().len() == 0,
            old(graph).edge_types().len() == 0,
            within_graph_limits(self.module_views()),
        ensures
            final(graph).wf(),
            final(graph).is_reference_graph_of(self.module_views()),
    {
        let ghost names = module_names(self.module_views());
        let ghost n = self.modules@.len();
        let mut i: usize = 0;
        while i < self.modules.len()
            invariant
                graph.wf(),
                graph.nodes() == self.module_views(),
                names == module_names(self.module_views()),
                n == self.modules@.len(),
                names.len() == n,
                reference_edges(names, n as int).len() <= u32::MAX,
                i <= n,
                graph.edges() == reference_edges(names, i as int),
                graph.edge_types().len() == graph.edges().len(),
                forall|k: int| 0 <= k < graph.edge_types().len() ==> #[trigger] graph.edge_types()[k] is TypeReference,
            decreases n - i,
        {
            let ghost acc = reference_edges(names, i as int);
            let mut j: usize = 0;
            while j < self.modules.len()
                invariant
                    graph.wf(),
                    graph.nodes() == self.module_views(),
                    names == module_names(self.module_views()),
                    n == self.modules@.len(),
                    names.len() == n,
                    reference_edges(names, n as int).len() <= u32::MAX,
                    i < n,
                    j <= n,
                    acc == reference_edges(names, i as int),
                    graph.edges() == reference_row(names, acc, i as int, j as int),
                    graph.edge_types().len() == graph.edges().len(),
                    forall|k: int| 0 <= k < graph.edge_types().len() ==> #[trigger] graph.edge_types()[k] is TypeReference,
                decreases n - j,
            {
                let from = self.modules[i].name.as_str();
                let to = self.modules[j].name.as_str();
                assert(names[i as int] == from@ && names[j as int] == to@);
                if !str_eq(from, to) && Self::might_reference(from, to) {
                    proof {
                        assert(names.contains(names[i as int]) && names.contains(names[j as int]));
                        lemma_edges_after_len(names, graph.edges(), names[i as int], names[j as int]);
                        lemma_reference_row_grows(names, acc, i as int, j + 1, n as int);
                        lemma_reference_edges_grow(names, i + 1, n as int);
                    }
                    graph.add_dependency(from, to, DependencyType::TypeReference);
                }
                j = j + 1;
            }
            i = i + 1;
        }
    }

    /// Whether a module probably refers to another, judging by names.
    fn might_reference(from_module: &str, to_module: &str) -> (r: bool)
        ensures
            r == might_reference_spec(from_module@, to_module@),
    {
        if contains(to_module, "meta.v1") || contains(to_module, "apimachinery") {
            return true;
        }
        if contains(from_module, "apps") && contains(to_module, "core") {
            return true;
        }
        if contains(from_module, "batch") && contains(to_module, "core") {
            return true;
        }
        false
    }

    /// A registry of the modules of a representation, with its dependency
    /// graph built.
    pub fn from_ir(ir: &IR) -> (r: Self)
        requires
            within_graph_limits(registered_all(Seq::empty(), ir.modules@)),
        ensures
            r.wf(),
            r.module_views() == registered_all(Seq::empty(), ir.modules@),
            r.graph() matches Some(g) && g.is_reference_graph_of(r.module_views()),
    {
        let mut registry = Self::new();
        let mut i: usize = 0;
        while i < ir.modules.len()
            invariant
                i <= ir.modules@.len(),
                registry.module_views() == registered_all(Seq::empty(), ir.modules@.take(i as int)),
                registry.module_views().len() <= i,
            decreases ir.modules@.len() - i,
        {
            registry.register_module(&ir.modules[i]);
            assert(ir.modules@.take(i + 1).drop_last() =~= ir.modules@.take(i as int));
            assert(ir.modules@.take(i + 1).last() == ir.modules@[i as int]);
            proof {
                lemma_last_index_of(
                    module_names(registered_all(Seq::empty(), ir.modules@.take(i as int))),
                    ir.modules@[i as int].name@,
                );
            }
            i = i + 1;
        }
        assert(ir.modules@.take(i as int) =~= ir.modules@);
        registry.build_dependency_graph();
        registry
    }

    /// The dependency graph, built first if it was not.
    pub fn get_dependency_graph(&mut self) -> (r: &ModuleDependencyGraph)
        requires
            old(self).graph() is None ==> within_graph_limits(old(self).module_views()),
        ensures
            final(self).wf(),
            final(self).module_views() == old(self).module_views(),
            final(self).graph() == Some(*r),
            r.wf(),
            match old(self).graph() {
                Some(g) => *r == g,
                None => r.is_reference_graph_of(old(self).module_views()),
            },
    {
        self.graph_ok();
        if self.dependency_graph.is_none() {
            self.build_dependency_graph();
        }
        self.dependency_graph.as_ref().unwrap()
    }

    /// The module names in dependency order, building the dependency graph
    /// first if it was not.
    pub fn get_modules_in_order(&mut self) -> (r: Result<Vec<String>, CoreError>)
        requires
            old(self).graph() is None ==> within_graph_limits(old(self).module_views()),
        ensures
            final(self).wf(),
            final(self).module_views() == old(self).module_views(),
            final(self).graph() matches Some(g) && g.sorted(r) && match old(self).graph() {
                Some(og) => g == og,
                None => g.is_reference_graph_of(old(self).module_views()),
            },
    {
        self.graph_ok();
        let graph = self.get_dependency_graph();
        graph.topological_sort()
    }

    /// The dependency cycles (as module names), building the dependency
    /// graph first if it was not.
    pub fn check_for_cycles(&mut self) -> (r: Vec<Vec<String>>)
        requires
            old(self).graph() is None ==> within_graph_limits(old(self).module_views()),
        ensures
            final(self).wf(),
            final(self).module_views() == old(self).module_views(),
            final(self).graph() matches Some(g) && g.cycles(string_lists_view(r@)) && match old(self).graph() {
                Some(og) => g == og,
                None => g.is_reference_graph_of(old(self).module_views()),
            },
    {
        self.graph_ok();
        let graph = self.get_dependency_graph();
        graph.detect_cycles()
    }

    /// The modules that depend on a module; none without a dependency
    /// graph or for an unknown module.
    pub fn get_dependents(&self, module_name: &str) -> (r: Vec<String>)
        ensures
            match self.graph() {
                Some(g) => match last_index_of(module_names(g.nodes()), module_name@) {
                    Some(i) => views(r@) == node_names(g.nodes(), predecessors(g.edges(), i as usize)),
                    None => r@.len() == 0,
                },
                None => r@.len() == 0,
            },
    {
        self.graph_ok();
        match &self.dependency_graph {
            Some(g) => g.dependents_of(module_name),
            None => Vec::new(),
        }
    }

    /// The modules a module depends on; none without a dependency graph or
    /// for an unknown module.
    pub fn get_dependencies(&self, module_name: &str) -> (r: Vec<String>)
        ensures
            match self.graph() {
                Some(g) => match last_index_of(module_names(g.nodes()), module_name@) {
                    Some(i) => views(r@) == node_names(g.nodes(), successors(g.edges(), i as usize)),
                    None => r@.len() == 0,
                },
                None => r@.len() == 0,
            },
    {
        self.graph_ok();
        match &self.dependency_graph {
            Some(g) => g.dependencies_of(module_name),
            None => Vec::new(),
        }
    }

    /// Hand each module to `processor`, in dependency order when the
    /// dependency graph was built (in registration order when it was not),
    /// stopping at the first error. A cycle is an error before any module
    /// is handed over; so is a module of the order that is not registered,
    /// when reached.
    pub fn process_in_dependency_order<F>(&self, processor: F) -> (r: Result<(), CoreError>) where
        F: Fn(&ModuleInfo) -> Result<(), CoreError>,

        requires
            forall|m: &ModuleInfo| #[trigger] processor.requires((m,)),
        ensures
            match self.graph() {
                Some(g) => has_cycle(g.nodes().len(), g.edges()) ==> (r matches Err(e) && circular(
                    e,
                    "Circular dependency detected in modules"@,
                )),
                None => true,
            },
    {
        self.graph_ok();
        match &self.dependency_graph {
            Some(graph) => {
                let sorted_names = match graph.topological_sort() {
                    Ok(names) => names,
                    Err(e) => {
                        return Err(e);
                    },
                };
                let mut i: usize = 0;
                while i < sorted_names.len()
                    invariant
                        i <= sorted_names.len(),
                        forall|m: &ModuleInfo| #[trigger] processor.requires((m,)),
                        self.graph() == Some(*graph),
                        !has_cycle(graph.nodes().len(), graph.edges()),
                    decreases sorted_names.len() - i,
                {
                    match self.get(sorted_names[i].as_str()) {
                        Some(info) => {
                            processor(info)?;
                        },
                        None => {
                            return Err(CoreError::ModuleNotFound(sorted_names[i].clone()));
                        },
                    }
                    i = i + 1;
                }
                Ok(())
            },
            None => {
                let mut i: usize = 0;
                while i < self.modules.len()
                    invariant
                        i <= self.modules.len(),
                        forall|m: &ModuleInfo| #[trigger] processor.requires((m,)),
                        self.graph() is None,
                    decreases self.modules.len() - i,
                {
                    processor(&self.modules[i])?;
                    i = i + 1;
                }
                Ok(())
            },
        }
    }

    /// The dependency cycles of the graph built; none without one.
    pub fn detect_cycles(&self) -> (r: Vec<Vec<String>>)
        ensures
            match self.graph() {
                Some(g) => g.cycles(string_lists_view(r@)),
                None => r@.len() == 0,
            },
    {
        self.graph_ok();
        match &self.dependency_graph {
            Some(g) => g.detect_cycles(),
            None => Vec::new(),
        }
    }

    /// The registered modules, in registration order.
    pub fn modules(&self) -> (r: &[ModuleInfo])
        ensures
            infos_view(r@) == self.module_views(),
    {
        self.modules.as_slice()
    }

    /// The registry's data for inspection: its modules, the dependency
    /// edges of its graph (none without one) and its cycles.
    pub fn to_debug_data(&self) -> (r: ModuleRegistryDebugData)
        ensures
            infos_view(r.modules@) == self.module_views(),
            r.dependency_edges@.map_values(|e: DependencyEdge| e@) == match self.graph() {
                Some(g) => g.edge_records(),
                None => Seq::empty(),
            },
            match self.graph() {
                Some(g) => g.cycles(string_lists_view(r.cycles@)),
                None => r.cycles@.len() == 0,
            },
    {
        self.graph_ok();
        let mut modules: Vec<ModuleInfo> = Vec::new();
        let mut i: usize = 0;
        while i < self.modules.len()
            invariant
                i <= self.modules.len(),
                infos_view(modules@) == infos_view(self.modules@.take(i as int)),
            decreases self.modules.len() - i,
        {
            let ghost m0 = modules@;
            modules.push(self.modules[i].duplicate());
            assert(infos_view(modules@) =~= infos_view(m0).push(self.modules@[i as int]@));
            assert(infos_view(self.modules@.take(i + 1)) =~= infos_view(self.modules@.take(i as int)).push(
                self.modules@[i as int]@,
            ));
            i = i + 1;
        }
        assert(self.modules@.take(i as int) =~= self.modules@);
        let dependency_edges = match &self.dependency_graph {
            Some(g) => g.edge_list(),
            None => {
                let v: Vec<DependencyEdge> = Vec::new();
                assert(v@.map_values(|e: DependencyEdge| e@) =~= Seq::empty());
                v
            },
        };
        ModuleRegistryDebugData { modules, dependency_edges, cycles: self.detect_cycles() }
    }

    /// A registry rebuilt from inspection data: its modules, and a graph of
    /// them with the recorded dependencies (those between known modules).
    pub fn from_debug_data(data: ModuleRegistryDebugData) -> (r: Self)
        requires
            data.modules@.len() < u32::MAX,
            data.dependency_edges@.len() < u32::MAX,
        ensures
            r.wf(),
            r.module_views() == infos_view(data.modules@),
            r.graph() matches Some(g) && g.nodes() == infos_view(data.modules@) && g.edges() == recorded_edges(
                module_names(infos_view(data.modules@)),
                data.dependency_edges@.map_values(|e: DependencyEdge| e@),
            ) && g.edge_types() == recorded_types(
                module_names(infos_view(data.modules@)),
                data.dependency_edges@.map_values(|e: DependencyEdge| e@),
            ),
    {
        let ghost mods = infos_view(data.modules@);
        let ghost recs = data.dependency_edges@.map_values(|e: DependencyEdge| e@);
        let mut graph = ModuleDependencyGraph::new();
        let mut i: usize = 0;
        while i < data.modules.len()
            invariant
                graph.wf(),
                mods == infos_view(data.modules@),
                data.modules@.len() < u32::MAX,
                i <= data.modules.len(),
                graph.nodes() == infos_view(data.modules@.take(i as int)),
                graph.edges().len() == 0,
                graph.edge_types().len() == 0,
            decreases data.modules.len() - i,
        {
            graph.add_module(data.modules[i].duplicate());
            assert(infos_view(data.modules@.take(i + 1)) =~= infos_view(data.modules@.take(i as int)).push(
                data.modules@[i as int]@,
            ));
            i = i + 1;
        }
        assert(data.modules@.take(i as int) =~= data.modules@);
        let mut k: usize = 0;
        assert(recs.take(0) =~= Seq::<(Seq<char>, Seq<char>, DependencyType)>::empty());
        while k < data.dependency_edges.len()
            invariant
                graph.wf(),
                graph.nodes() == mods,
                mods == infos_view(data.modules@),
                recs == data.dependency_edges@.map_values(|e: DependencyEdge| e@),
                data.dependency_edges@.len() < u32::MAX,
                k <= data.dependency_edges.len(),
                graph.edges() == recorded_edges(module_names(mods), recs.take(k as int)),
                graph.edge_types() == recorded_types(module_names(mods), recs.take(k as int)),
                graph.edges().len() <= k,
            decreases data.dependency_edges.len() - k,
        {
            let e = &data.dependency_edges[k];
            assert(recs.take(k + 1).drop_last() =~= recs.take(k as int));
            assert(recs.take(k + 1).last() == e@);
            graph.add_dependency(e.from.as_str(), e.to.as_str(), e.dep_type);
            k = k + 1;
        }
        assert(recs.take(k as int) =~= recs);
        ModuleRegistry { modules: data.modules, dependency_graph: Some(graph) }
    }

    /// Whether a module needs an import to use another.
    pub fn requires_import(&self, from_module: &str, to_module: &str) -> (r: bool)
        ensures
            r == (from_module@ != to_module@),
    {
        !str_eq(from_module, to_module)
    }

    /// A module that holds a type of this name.
    pub fn find_module_for_type(&self, tname: &str) -> (r: Option<&ModuleInfo>)
        ensures
            match r {
                Some(m) => self.module_views().contains(m@) && m@.type_names.contains(tname@),
                None => forall|i: int| 0 <= i < self.module_views().len() ==> !(#[trigger] self.module_views()[i]).type_names.contains(tname@),
            },
    {
        let mut i: usize = 0;
        while i < self.modules.len()
            invariant
                i <= self.modules.len(),
                forall|k: int| 0 <= k < i ==> !(#[trigger] self.module_views()[k]).type_names.contains(tname@),
            decreases self.modules.len() - i,
        {
            let names = &self.modules[i].type_names;
            if crate::text::contains_str(names, tname) {
                assert(self.module_views()[i as int] == self.modules@[i as int]@);
                return Some(&self.modules[i]);
            }
            assert(self.module_views()[i as int] == self.modules@[i as int]@);
            i = i + 1;
        }
        None
    }
}

fn cat3(a: &str, b: &str, c: &str) -> (r: String)
    ensures
        r@ == a@ + b@ + c@,
{
    let mut r = concat(a, b);
    r.append(c);
    r
}

fn cat4(a: &str, b: &str, c: &str, d: &str) -> (r: String)
    ensures
        r@ == a@ + b@ + c@ + d@,
{
    let mut r = cat3(a, b, c);
    r.append(d);
    r
}

fn cat5(a: &str, b: &str, c: &str, d: &str, e: &str) -> (r: String)
    ensures
        r@ == a@ + b@ + c@ + d@ + e@,
{
    let mut r = cat4(a, b, c, d);
    r.append(e);
    r
}

fn cat6(a: &str, b: &str, c: &str, d: &str, e: &str, f: &str) -> (r: String)
    ensures
        r@ == a@ + b@ + c@ + d@ + e@ + f@,
{
    let mut r = cat5(a, b, c, d, e);
    r.append(f);
    r
}

impl ModuleRegistry {
    /// The consolidated-file path of a type of a Kubernetes module.
    fn k8s_consolidated(
        &self,
        f: &ModuleInfo,
        t: &ModuleInfo,
        from_module: &str,
        to_module: &str,
        to_type: &str,
    ) -> (r: Option<String>)
        ensures
            match k8s_consolidated_path(f@, t@, from_module@, to_module@, to_type@) {
                Some(p) => r matches Some(s) && s@ == p,
                None => r is None,
            },
    {
        let cross = !starts_with(f.domain.as_str(), "k8s.io") && !starts_with(f.domain.as_str(), "io.k8s.")
            && !starts_with(from_module, "k8s.io") && !starts_with(from_module, "io.k8s.")
            && !starts_with(from_module, "apimachinery.");
        let depth = Self::calculate_module_filesystem_depth(from_module);
        let mut pre = Self::generate_parent_path(depth);
        pre.append("/");
        if cross {
            pre.append("k8s_io/");
        }
        let ghost pre_v = pre@;
        proof {
            let e = Seq::<char>::empty();
            assert(pre_v == parent_path_spec(fs_depth_spec(from_module@)) + "/"@ + if cross {
                "k8s_io/"@
            } else {
                e
            }) by {
                if !cross {
                    assert(pre_v =~= parent_path_spec(fs_depth_spec(from_module@)) + "/"@ + e);
                }
            }
        }
        let tl = str_to_lowercase(to_type);
        let tls = tl.as_str();
        let v = t.version.as_str();
        if str_eq(tls, "objectmeta") || str_eq(tls, "labelselector") || str_eq(tls, "listmeta") || str_eq(
            tls,
            "time",
        ) || str_eq(tls, "condition") || str_eq(tls, "managedfieldsentry") || str_eq(tls, "microtime")
            || str_eq(tls, "deletionoptions") || str_eq(tls, "ownerreference") || str_eq(tls, "status")
            || str_eq(tls, "statusdetails") || str_eq(tls, "statuscause") {
            return Some(cat4(pre.as_str(), "apimachinery.pkg.apis/meta/", v, "/mod.ncl"));
        }
        if str_eq(tls, "typedlocalobjectreference") {
            return Some(cat4(pre.as_str(), "api/core/", v, ".ncl"));
        }
        if str_eq(tls, "intorstring") || str_eq(tls, "rawextension") {
            return Some(concat(pre.as_str(), "v0/mod.ncl"));
        }
        if str_eq(to_module, "k8s.io.v1") {
            return Some(cat4(pre.as_str(), "api/core/", v, ".ncl"));
        }
        if starts_with(to_module, "k8s.io.") {
            let parts = split_char(to_module, '.');
            if parts.len() >= 3 {
                assert(views(parts@)[2] == parts@[2]@);
                return Some(cat6(pre.as_str(), "api/", parts[2].as_str(), "/", v, ".ncl"));
            }
            return None;
        }
        if starts_with(to_module, "io.k8s.api.core") {
            return Some(cat4(pre.as_str(), "api/core/", v, ".ncl"));
        }
        if starts_with(to_module, "io.k8s.api.") {
            let parts = split_char(to_module, '.');
            if parts.len() >= 4 {
                assert(views(parts@)[3] == parts@[3]@);
                return Some(cat6(pre.as_str(), "api/", parts[3].as_str(), "/", v, ".ncl"));
            }
            return None;
        }
        if starts_with(to_module, "io.k8s.apimachinery.pkg.apis.meta") {
            return Some(cat4(pre.as_str(), "apimachinery.pkg.apis/meta/", v, ".ncl"));
        }
        if starts_with(to_module, "io.k8s.kube-aggregator") {
            return Some(cat4(pre.as_str(), "kube-aggregator.pkg.apis/apiregistration/", v, ".ncl"));
        }
        if starts_with(to_module, "io.k8s.apiextensions-apiserver") {
            return Some(
                cat4(pre.as_str(), "apiextensions-apiserver.pkg.apis/apiextensions/", v, ".ncl"),
            );
        }
        None
    }

    /// The import path of type `to_type` of module `to_module` seen from a
    /// file of module `from_module`; `None` when either module is not
    /// registered or the target module does not hold the type.
    pub fn calculate_import_path(&self, from_module: &str, to_module: &str, to_type: &str) -> (r: Option<String>)
        ensures
            match import_path_spec(self.module_views(), from_module@, to_module@, to_type@) {
                Some(p) => r matches Some(s) && s@ == p,
                None => r is None,
            },
    {
        let ghost mods = self.module_views();
        proof {
            lemma_last_index_of(module_names(mods), from_module@);
            lemma_last_index_of(module_names(mods), to_module@);
        }
        let fi = match self.find(from_module) {
            Some(i) => i,
            None => {
                return None;
            },
        };
        let ti = match self.find(to_module) {
            Some(i) => i,
            None => {
                return None;
            },
        };
        let f = &self.modules[fi];
        let t = &self.modules[ti];
        assert(mods[fi as int] == f@ && mods[ti as int] == t@);
        if !crate::text::contains_str(&t.type_names, to_type) {
            return None;
        }
        if str_eq(from_module, to_module) {
            return Some(cat3("./", to_type, ".ncl"));
        }
        let k8s_target = str_eq(t.domain.as_str(), "k8s.io") || starts_with(t.domain.as_str(), "io.k8s.")
            || starts_with(to_module, "io.k8s.");
        if k8s_target {
            match self.k8s_consolidated(f, t, from_module, to_module, to_type) {
                Some(p) => {
                    return Some(p);
                },
                None => {},
            }
        }
        if str_eq(f.domain.as_str(), t.domain.as_str()) && str_eq(f.namespace.as_str(), t.namespace.as_str()) {
            return Some(cat5("../", t.version.as_str(), "/", to_type, ".ncl"));
        }
        let mut parts: Vec<String> = Vec::new();
        let mut i: usize = 0;
        while i < f.path.len()
            invariant
                i <= f.path.len(),
                views(parts@) == dotdots(i as nat),
            decreases f.path.len() - i,
        {
            let ghost p0 = parts@;
            let d = to_owned_string("..");
            parts.push(d);
            assert(views(parts@) =~= views(p0).push(d@));
            assert(dotdots((i + 1) as nat) =~= dotdots(i as nat).push(".."@));
            i = i + 1;
        }
        append_components(&mut parts, copy_strings(&t.path));
        let rel = join(&parts, "/");
        Some(cat4(rel.as_str(), "/", to_type, ".ncl"))
    }
}

/// Exporting a dependency graph's edges as name records and adding them
/// back to its modules gives the same edges, with the same types, when no
/// two modules share a name: a registry rebuilt from its own inspection
/// data has the dependency graph it had.
pub proof fn law_debug_data_round_trip(g: ModuleDependencyGraph)
    requires
        g.wf(),
        module_names(g.nodes()).no_duplicates(),
    ensures
        recorded_edges(module_names(g.nodes()), g.edge_records()) == g.edges(),
        recorded_types(module_names(g.nodes()), g.edge_records()) == g.edge_types(),
{
    lemma_records_prefix(g, g.edges().len() as int);
    assert(g.edge_records().take(g.edges().len() as int) =~= g.edge_records());
    assert(g.edges().take(g.edges().len() as int) =~= g.edges());
    assert(g.edge_types().take(g.edges().len() as int) =~= g.edge_types());
}

proof fn lemma_records_prefix(g: ModuleDependencyGraph, k: int)
    requires
        g.wf(),
        module_names(g.nodes()).no_duplicates(),
        0 <= k <= g.edges().len(),
    ensures
        recorded_edges(module_names(g.nodes()), g.edge_records().take(k)) == g.edges().take(k),
        recorded_types(module_names(g.nodes()), g.edge_records().take(k)) == g.edge_types().take(k),
    decreases k,
{
    let names = module_names(g.nodes());
    if k == 0 {
        assert(g.edge_records().take(0) =~= Seq::<(Seq<char>, Seq<char>, DependencyType)>::empty());
        assert(g.edges().take(0) =~= Seq::<(usize, usize)>::empty());
        assert(g.edge_types().take(0) =~= Seq::<DependencyType>::empty());
    } else {
        lemma_records_prefix(g, k - 1);
        let recs = g.edge_records().take(k);
        assert(recs.drop_last() =~= g.edge_records().take(k - 1));
        let (a, b) = g.edges()[k - 1];
        assert(g.edges()[k - 1] == g.edges()[k - 1]);
        assert(a < g.nodes().len() && b < g.nodes().len());
        assert(recs.last() == (names[a as int], names[b as int], g.edge_types()[k - 1]));
        lemma_last_index_unique(names, a as int);
        lemma_last_index_unique(names, b as int);
        assert(g.edges().take(k) =~= g.edges().take(k - 1).push((a, b)));
        assert(g.edge_types().take(k) =~= g.edge_types().take(k - 1).push(g.edge_types()[k - 1]));
    }
}

/// In a list without repeats, the last position of an entry's key is the
/// entry's own.
proof fn lemma_last_index_unique(keys: Seq<Seq<char>>, a: int)
    requires
        keys.no_duplicates(),
        0 <= a < keys.len(),
    ensures
        last_index_of(keys, keys[a]) == Some(a),
    decreases keys.len(),
{
    if a != keys.len() - 1 {
        assert(keys.last() == keys[keys.len() - 1]);
        assert(keys.drop_last()[a] == keys[a]);
        assert(keys.drop_last().no_duplicates()) by {
            assert forall|i: int, j: int| 0 <= i < keys.drop_last().len() && 0 <= j < keys.drop_last().len() && i != j
                implies keys.drop_last()[i] != keys.drop_last()[j] by {
                assert(keys.drop_last()[i] == keys[i] && keys.drop_last()[j] == keys[j]);
            }
        }
        lemma_last_index_unique(keys.drop_last(), a);
    }
}

/// Registering keeps one entry per module name.
pub proof fn law_register_keeps_names_unique(mods: Seq<ModuleInfoView>, info: ModuleInfoView)
    requires
        module_names(mods).no_duplicates(),
    ensures
        module_names(registered(mods, info)).no_duplicates(),
{
    lemma_last_index_of(module_names(mods), info.name);
    let after = registered(mods, info);
    match last_index_of(module_names(mods), info.name) {
        Some(i) => {
            assert(module_names(after) =~= module_names(mods).update(i, info.name));
        },
        None => {
            assert(module_names(after) =~= module_names(mods).push(info.name));
        },
    }
}

/// After registering a module, looking its name up finds the information
/// just registered: the registry's update-or-append keeps one entry per
/// name, at the position the lookup finds.
pub proof fn law_register_then_get(mods: Seq<ModuleInfoView>, info: ModuleInfoView)
    ensures
        last_index_of(module_names(registered(mods, info)), info.name) matches Some(j) && registered(mods, info)[j]
            == info,
{
    lemma_last_index_of(module_names(mods), info.name);
    match last_index_of(module_names(mods), info.name) {
        Some(i) => {
            let after = mods.update(i, info);
            assert(module_names(after) =~= module_names(mods).update(i, info.name));
            lemma_last_index_update(module_names(mods), info.name, i);
        },
        None => {
            let after = mods.push(info);
            assert(module_names(after) =~= module_names(mods).push(info.name));
            assert(module_names(after).drop_last() =~= module_names(mods));
        },
    }
}

/// Rewriting the entry that the last-index lookup finds with the same key
/// leaves the lookup unchanged.
proof fn lemma_last_index_update(keys: Seq<Seq<char>>, key: Seq<char>, i: int)
    requires
        last_index_of(keys, key) == Some(i),
    ensures
        last_index_of(keys.update(i, key), key) == Some(i),
    decreases keys.len(),
{
    lemma_last_index_of(keys, key);
    if keys.last() != key {
        lemma_last_index_update(keys.drop_last(), key, i);
        assert(keys.update(i, key).drop_last() =~= keys.drop_last().update(i, key));
    }
}

/// Between two registered modules of the same domain and namespace, outside
/// Kubernetes, the import path of a type the target holds climbs one
/// directory and names the target's version directory: `../{target
/// version}/{type}.ncl`.
pub proof fn law_sibling_path_names_target_version(
    mods: Seq<ModuleInfoView>,
    from: Seq<char>,
    to: Seq<char>,
    ty: Seq<char>,
    fi: int,
    ti: int,
)
    requires
        last_index_of(module_names(mods), from) == Some(fi),
        last_index_of(module_names(mods), to) == Some(ti),
        from != to,
        mods[ti].type_names.contains(ty),
        mods[ti].domain != "k8s.io"@,
        !is_prefix("io.k8s."@, mods[ti].domain),
        !is_prefix("io.k8s."@, to),
        mods[fi].domain == mods[ti].domain,
        mods[fi].namespace == mods[ti].namespace,
    ensures
        import_path_spec(mods, from, to, ty) == Some("../"@ + mods[ti].version + "/"@ + ty + ".ncl"@),
{
}

/// Such a path does not depend on the source module's version: changing
/// it leaves the path as it is.
pub proof fn law_sibling_path_ignores_source_version(
    mods: Seq<ModuleInfoView>,
    from: Seq<char>,
    to: Seq<char>,
    ty: Seq<char>,
    fi: int,
    ti: int,
    version: Seq<char>,
)
    requires
        last_index_of(module_names(mods), from) == Some(fi),
        last_index_of(module_names(mods), to) == Some(ti),
        from != to,
        mods[ti].type_names.contains(ty),
        mods[ti].domain != "k8s.io"@,
        !is_prefix("io.k8s."@, mods[ti].domain),
        !is_prefix("io.k8s."@, to),
        mods[fi].domain == mods[ti].domain,
        mods[fi].namespace == mods[ti].namespace,
    ensures
        import_path_spec(mods.update(fi, ModuleInfoView { version, ..mods[fi] }), from, to, ty)
            == import_path_spec(mods, from, to, ty),
{
    lemma_last_index_of(module_names(mods), from);
    lemma_last_index_of(module_names(mods), to);
    let m2 = mods.update(fi, ModuleInfoView { version, ..mods[fi] });
    assert(module_names(m2) =~= module_names(mods));
    assert(fi != ti);
    assert(m2[ti] == mods[ti]);
}

/// No import path is found unless both modules are registered and the
/// target holds the type; a type of the same module is imported from the
/// same directory, as `./{type}.ncl`.
pub proof fn law_import_path_needs_registered_target_type(
    mods: Seq<ModuleInfoView>,
    from: Seq<char>,
    to: Seq<char>,
    ty: Seq<char>,
)
    ensures
        !module_names(mods).contains(from) ==> import_path_spec(mods, from, to, ty) is None,
        !module_names(mods).contains(to) ==> import_path_spec(mods, from, to, ty) is None,
        (module_names(mods).contains(to) && !mods[last_index_of(module_names(mods), to).unwrap()].type_names.contains(ty))
            ==> import_path_spec(mods, from, to, ty) is None,
        (module_names(mods).contains(from) && from == to && mods[last_index_of(module_names(mods), to).unwrap()].type_names.contains(ty))
            ==> import_path_spec(mods, from, to, ty) == Some("./"@ + ty + ".ncl"@),
{
    lemma_last_index_of(module_names(mods), from);
    lemma_last_index_of(module_names(mods), to);
}

} // verus!
