//! Whole-program analysis before code generation: every module's types in
//! one symbol table, each module's references to other modules, the
//! dependency graph between modules and the imports each module needs.

use std::sync::Arc;
use vstd::prelude::*;
use crate::digraph::{
    digraph_add_edge, digraph_add_node, digraph_edges, digraph_is_cyclic, digraph_new, digraph_size,
    digraph_toposort, edges_within, has_cycle, petgraph_toposort,
};
use crate::ir::{Module, TypeDefinition};
use crate::lookup::{last_index_of, lemma_last_index_of};
use crate::module_registry::ModuleRegistry;
use crate::pipeline::CoreError;
use crate::text::{concat, contains_str, is_prefix, starts_with, str_eq, to_owned_string, views};
use crate::types::{fields_view, lemma_fields_view, lemma_types_view, types_view, FieldView, Type, TypeView};

verus! {

broadcast use vstd::string::group_string_axioms;

/// Where a type is defined.
#[derive(Debug, Clone)]
pub struct TypeLocation {
    /// The module defining the type.
    pub module_id: String,
    /// The type's name.
    pub typename: String,
    /// `module_id.typename`.
    pub canonical_ref: String,
}

impl View for TypeLocation {
    type V = (Seq<char>, Seq<char>, Seq<char>);

    open spec fn view(&self) -> (Seq<char>, Seq<char>, Seq<char>) {
        (self.module_id@, self.typename@, self.canonical_ref@)
    }
}

/// The analysis of one module.
#[derive(Debug)]
pub struct ModuleAnalysis {
    /// The module's name.
    pub id: String,
    pub module: Module,
    /// The references to types of other modules, each once, in the order
    /// first met.
    pub external_refs: Vec<String>,
    /// The names of the types the module defines, each once.
    pub provided_types: Vec<String>,
    /// For each module it needs types of (in the order first needed), the
    /// names of those types, each once.
    pub required_imports: Vec<(String, Vec<String>)>,
}

/// The value of a module's requirements: module ids and type names.
pub open spec fn imports_view(v: Seq<(String, Vec<String>)>) -> Seq<(Seq<char>, Seq<Seq<char>>)> {
    v.map_values(|e: (String, Vec<String>)| (e.0@, views(e.1@)))
}

/// The value of a table of type locations.
pub open spec fn locs_view(t: Seq<TypeLocation>) -> Seq<(Seq<char>, Seq<char>, Seq<char>)> {
    t.map_values(|l: TypeLocation| l@)
}

/// The keys of a table of type locations: the canonical references.
pub open spec fn loc_refs(t: Seq<(Seq<char>, Seq<char>, Seq<char>)>) -> Seq<Seq<char>> {
    t.map_values(|l: (Seq<char>, Seq<char>, Seq<char>)| l.2)
}

/// `module.name`.
pub open spec fn qualified(module: Seq<char>, name: Seq<char>) -> Seq<char> {
    module + "."@ + name
}

/// The table with `loc` under its canonical reference, replacing the entry
/// there.
pub open spec fn with_location(
    t: Seq<(Seq<char>, Seq<char>, Seq<char>)>,
    loc: (Seq<char>, Seq<char>, Seq<char>),
) -> Seq<(Seq<char>, Seq<char>, Seq<char>)> {
    match last_index_of(loc_refs(t), loc.2) {
        Some(i) => t.update(i, loc),
        None => t.push(loc),
    }
}

/// The table with the types of module `id` added in order.
pub open spec fn with_module_types(
    t: Seq<(Seq<char>, Seq<char>, Seq<char>)>,
    id: Seq<char>,
    types: Seq<TypeDefinition>,
) -> Seq<(Seq<char>, Seq<char>, Seq<char>)>
    decreases types.len(),
{
    if types.len() == 0 {
        t
    } else {
        let n = types.last().name@;
        with_location(with_module_types(t, id, types.drop_last()), (id, n, qualified(id, n)))
    }
}

/// The table with the types of each module added, module by module.
pub open spec fn with_all_types(
    t: Seq<(Seq<char>, Seq<char>, Seq<char>)>,
    ms: Seq<Module>,
) -> Seq<(Seq<char>, Seq<char>, Seq<char>)>
    decreases ms.len(),
{
    if ms.len() == 0 {
        t
    } else {
        with_module_types(with_all_types(t, ms.drop_last()), ms.last().name@, ms.last().types@)
    }
}

/// The names of modules.
pub open spec fn module_ids(ms: Seq<Module>) -> Seq<Seq<char>> {
    ms.map_values(|m: Module| m.name@)
}

/// The modules with `m` replacing the one of its name, or added last.
pub open spec fn with_module(ms: Seq<Module>, m: Module) -> Seq<Module> {
    match last_index_of(module_ids(ms), m.name@) {
        Some(i) => ms.update(i, m),
        None => ms.push(m),
    }
}

/// The modules after adding each of `new` in turn.
pub open spec fn with_modules(ms: Seq<Module>, new: Seq<Module>) -> Seq<Module>
    decreases new.len(),
{
    if new.len() == 0 {
        ms
    } else {
        with_module(with_modules(ms, new.drop_last()), new.last())
    }
}

/// `acc` with `x` added unless it holds it already.
pub open spec fn add_distinct(acc: Seq<Seq<char>>, x: Seq<char>) -> Seq<Seq<char>> {
    if acc.contains(x) {
        acc
    } else {
        acc.push(x)
    }
}

/// `acc` with each of `s` added unless already there, in order.
pub open spec fn add_all(acc: Seq<Seq<char>>, s: Seq<Seq<char>>) -> Seq<Seq<char>>
    decreases s.len(),
{
    if s.len() == 0 {
        acc
    } else {
        add_distinct(add_all(acc, s.drop_last()), s.last())
    }
}

/// The names of type definitions, in order.
pub open spec fn def_names(types: Seq<TypeDefinition>) -> Seq<Seq<char>> {
    types.map_values(|t: TypeDefinition| t.name@)
}

/// The position of the first location of a type of this name.
pub open spec fn first_with_name(t: Seq<(Seq<char>, Seq<char>, Seq<char>)>, name: Seq<char>) -> Option<int>
    decreases t.len(),
{
    if t.len() == 0 {
        None
    } else {
        match first_with_name(t.drop_last(), name) {
            Some(i) => Some(i),
            None => if t.last().1 == name {
                Some(t.len() - 1)
            } else {
                None
            },
        }
    }
}

/// What a reference to `name` from module `current` means: a type of the
/// module itself, else the first type of that name in the table, else the
/// name as written.
pub open spec fn resolve_spec(t: Seq<(Seq<char>, Seq<char>, Seq<char>)>, name: Seq<char>, current: Seq<char>) -> Seq<char> {
    let local = qualified(current, name);
    if loc_refs(t).contains(local) {
        local
    } else {
        match first_with_name(t, name) {
            Some(i) => t[i].2,
            None => name,
        }
    }
}

/// The references of a type of module `current` to other modules, in the
/// order met: a reference with another module gives `module.name`, one
/// without a module what it resolves to, unless that starts with the
/// module's own name. The search goes into arrays, optionals, union
/// members and record fields.
pub open spec fn unit_refs(ty: TypeView, current: Seq<char>, t: Seq<(Seq<char>, Seq<char>, Seq<char>)>) -> Seq<Seq<char>>
    decreases ty,
{
    match ty {
        TypeView::Reference { name, module } => match module {
            Some(m) => if m != current {
                seq![qualified(m, name)]
            } else {
                Seq::empty()
            },
            None => {
                let c = resolve_spec(t, name, current);
                if is_prefix(current, c) {
                    Seq::empty()
                } else {
                    seq![c]
                }
            },
        },
        TypeView::Array(inner) => unit_refs(*inner, current, t),
        TypeView::Optional(inner) => unit_refs(*inner, current, t),
        TypeView::Union { types, coercion_hint: _ } => unit_types_refs(types, current, t),
        TypeView::Record { fields, open: _ } => unit_fields_refs(fields, current, t),
        _ => Seq::empty(),
    }
}

/// The references of a list of types, in order.
pub open spec fn unit_types_refs(
    types: Seq<TypeView>,
    current: Seq<char>,
    t: Seq<(Seq<char>, Seq<char>, Seq<char>)>,
) -> Seq<Seq<char>>
    decreases types,
{
    if types.len() == 0 {
        Seq::empty()
    } else {
        proof {
            assert(types.drop_last() =~= types.subrange(0, types.len() - 1));
        }
        unit_types_refs(types.drop_last(), current, t) + unit_refs(types.last(), current, t)
    }
}

/// The references of a list of fields, in order.
pub open spec fn unit_fields_refs(
    fields: Seq<(Seq<char>, FieldView)>,
    current: Seq<char>,
    t: Seq<(Seq<char>, Seq<char>, Seq<char>)>,
) -> Seq<Seq<char>>
    decreases fields,
{
    if fields.len() == 0 {
        Seq::empty()
    } else {
        proof {
            assert(fields.drop_last() =~= fields.subrange(0, fields.len() - 1));
            assert(decreases_to!(fields => fields[fields.len() - 1]));
        }
        unit_fields_refs(fields.drop_last(), current, t) + unit_refs(fields.last().1.ty, current, t)
    }
}

/// The references of a module's type definitions, each once, in the order
/// first met.
pub open spec fn defs_refs(
    acc: Seq<Seq<char>>,
    types: Seq<TypeDefinition>,
    current: Seq<char>,
    t: Seq<(Seq<char>, Seq<char>, Seq<char>)>,
) -> Seq<Seq<char>>
    decreases types.len(),
{
    if types.len() == 0 {
        acc
    } else {
        add_all(defs_refs(acc, types.drop_last(), current, t), unit_refs(types.last().ty@, current, t))
    }
}

/// The external references of a module.
pub open spec fn module_refs(m: Module, t: Seq<(Seq<char>, Seq<char>, Seq<char>)>) -> Seq<Seq<char>> {
    defs_refs(Seq::empty(), m.types@, m.name@, t)
}

/// The module ids of requirements.
pub open spec fn import_keys(imps: Seq<(Seq<char>, Seq<Seq<char>>)>) -> Seq<Seq<char>> {
    imps.map_values(|e: (Seq<char>, Seq<Seq<char>>)| e.0)
}

/// The requirements with type `name` of module `module` added.
pub open spec fn add_import(
    imps: Seq<(Seq<char>, Seq<Seq<char>>)>,
    module: Seq<char>,
    name: Seq<char>,
) -> Seq<(Seq<char>, Seq<Seq<char>>)> {
    match last_index_of(import_keys(imps), module) {
        Some(i) => imps.update(i, (module, add_distinct(imps[i].1, name))),
        None => imps.push((module, seq![name])),
    }
}

/// What a list of references requires: for each found in the table, its
/// type from its module.
pub open spec fn imports_for(refs: Seq<Seq<char>>, t: Seq<(Seq<char>, Seq<char>, Seq<char>)>) -> Seq<(Seq<char>, Seq<Seq<char>>)>
    decreases refs.len(),
{
    if refs.len() == 0 {
        Seq::empty()
    } else {
        let prev = imports_for(refs.drop_last(), t);
        match last_index_of(loc_refs(t), refs.last()) {
            Some(k) => add_import(prev, t[k].0, t[k].1),
            None => prev,
        }
    }
}

/// An analysis names its module and lists its distinct type names.
pub open spec fn base_ok(a: ModuleAnalysis) -> bool {
    &&& a.id@ == a.module.name@
    &&& views(a.provided_types@) == add_all(Seq::empty(), def_names(a.module.types@))
}

/// The number of external references of the first `i` modules.
pub open spec fn refs_total(ms: Seq<Module>, t: Seq<(Seq<char>, Seq<char>, Seq<char>)>, i: int) -> nat
    decreases i,
{
    if i <= 0 {
        0
    } else {
        refs_total(ms, t, i - 1) + module_refs(ms[i - 1], t).len()
    }
}

/// Adding two lists one after the other adds their concatenation.
pub proof fn lemma_add_all_concat(acc: Seq<Seq<char>>, a: Seq<Seq<char>>, b: Seq<Seq<char>>)
    ensures
        add_all(acc, a + b) == add_all(add_all(acc, a), b),
    decreases b.len(),
{
    if b.len() == 0 {
        assert(a + b =~= a);
    } else {
        assert((a + b).drop_last() =~= a + b.drop_last());
        assert((a + b).last() == b.last());
        lemma_add_all_concat(acc, a, b.drop_last());
    }
}

/// A first match within a prefix is the first match of the whole.
proof fn lemma_first_with_name_prefix(t: Seq<(Seq<char>, Seq<char>, Seq<char>)>, name: Seq<char>, j: int)
    requires
        0 <= j <= t.len(),
        first_with_name(t.take(j), name) is Some,
    ensures
        first_with_name(t, name) == first_with_name(t.take(j), name),
    decreases t.len() - j,
{
    if j < t.len() {
        assert(t.take(j + 1).drop_last() =~= t.take(j));
        lemma_first_with_name_prefix(t, name, j + 1);
    } else {
        assert(t.take(j) =~= t);
    }
}

/// The reference counts grow with the number of modules counted.
proof fn lemma_refs_total_mono(ms: Seq<Module>, t: Seq<(Seq<char>, Seq<char>, Seq<char>)>, i: int, j: int)
    requires
        i <= j,
    ensures
        refs_total(ms, t, i) <= refs_total(ms, t, j),
    decreases j - i,
{
    if i < j {
        lemma_refs_total_mono(ms, t, i, j - 1);
    }
}

/// The analysis a module gets against a table: its name, its distinct
/// type names, its external references and what they require.
pub open spec fn analysis_of(
    a: ModuleAnalysis,
    m: Module,
    t: Seq<(Seq<char>, Seq<char>, Seq<char>)>,
) -> bool {
    &&& a.module == m
    &&& base_ok(a)
    &&& views(a.external_refs@) == module_refs(m, t)
    &&& imports_view(a.required_imports@) == imports_for(module_refs(m, t), t)
}

/// The edges from node `base + from` for a list of references: to the node
/// of the module defining each referenced type, when the table and the
/// modules know it.
pub open spec fn ref_edges(
    base: nat,
    from: int,
    ids: Seq<Seq<char>>,
    refs: Seq<Seq<char>>,
    t: Seq<(Seq<char>, Seq<char>, Seq<char>)>,
) -> Seq<(usize, usize)>
    decreases refs.len(),
{
    if refs.len() == 0 {
        Seq::empty()
    } else {
        let prev = ref_edges(base, from, ids, refs.drop_last(), t);
        match last_index_of(loc_refs(t), refs.last()) {
            Some(k) => match last_index_of(ids, t[k].0) {
                Some(j) => prev.push(((base + from) as usize, (base + j) as usize)),
                None => prev,
            },
            None => prev,
        }
    }
}

/// The edges of the first `i` modules, module by module.
pub open spec fn unit_edges(
    base: nat,
    ms: Seq<Module>,
    t: Seq<(Seq<char>, Seq<char>, Seq<char>)>,
    i: int,
) -> Seq<(usize, usize)>
    decreases i,
{
    if i <= 0 {
        Seq::empty()
    } else {
        unit_edges(base, ms, t, i - 1) + ref_edges(base, i - 1, module_ids(ms), module_refs(ms[i - 1], t), t)
    }
}

/// Record that type `name` of module `module` is needed.
fn add_import_exec(imps: &mut Vec<(String, Vec<String>)>, module: &str, name: &str)
    ensures
        imports_view(final(imps)@) == add_import(imports_view(old(imps)@), module@, name@),
{
    let ghost iv = imports_view(imps@);
    let ghost keys = import_keys(iv);
    let mut j: usize = imps.len();
    assert(keys.take(j as int) =~= keys);
    while j > 0
        invariant
            iv == imports_view(imps@),
            iv == imports_view(old(imps)@),
            keys == import_keys(iv),
            keys.len() == imps@.len(),
            j <= imps.len(),
            last_index_of(keys, module@) == last_index_of(keys.take(j as int), module@),
        decreases j,
    {
        assert(keys[j - 1] == imps@[j - 1].0@);
        if str_eq(imps[j - 1].0.as_str(), module) {
            assert(keys.take(j as int).last() == module@);
            let i = j - 1;
            assert(last_index_of(keys, module@) == Some(i as int));
            let mut names = crate::text::clone_strings(&imps[i].1);
            let ghost n0 = views(names@);
            assert(n0 == iv[i as int].1);
            if !contains_str(&names, name) {
                names.push(name.to_owned());
                assert(views(names@) =~= n0.push(name@));
            }
            let key = imps[i].0.clone();
            imps.set(i, (key, names));
            assert(imports_view(imps@) =~= iv.update(i as int, (module@, add_distinct(iv[i as int].1, name@))));
            return;
        }
        assert(keys.take(j as int).drop_last() =~= keys.take(j - 1));
        j = j - 1;
    }
    let mut names: Vec<String> = Vec::new();
    names.push(name.to_owned());
    assert(views(names@) =~= seq![name@]);
    imps.push((module.to_owned(), names));
    assert(imports_view(imps@) =~= iv.push((module@, seq![name@])));
}

/// A compilation unit: the modules analysed, the table of all their types
/// and the dependency graph between them.
#[derive(Debug)]
pub struct CompilationUnit {
    /// The analysis of each module, one per module name.
    pub modules: Vec<ModuleAnalysis>,
    /// Where each type is defined, one entry per canonical reference.
    pub global_symbol_table: Vec<TypeLocation>,
    /// The dependency graph between modules.
    pub dependency_graph: petgraph::graph::DiGraph<(), ()>,
    /// The module each node stands for.
    pub graph_nodes: Vec<String>,
    /// The registry the paths are resolved with.
    pub module_registry: Arc<ModuleRegistry>,
}

impl CompilationUnit {
    /// Each analysis is that of its module against the table; the graph has
    /// a module name per node and its edges join nodes.
    pub open spec fn wf(&self) -> bool {
        &&& forall|i: int| 0 <= i < self.modules@.len() ==> analysis_of(#[trigger] self.modules@[i], self.modules@[i].module, self.table())
        &&& self.graph_wf()
    }

    /// The graph has a module name per node and its edges join nodes.
    pub open spec fn graph_wf(&self) -> bool {
        &&& digraph_size(self.dependency_graph) == self.graph_nodes@.len()
        &&& digraph_edges(self.dependency_graph).len() <= u32::MAX
        &&& edges_within(digraph_size(self.dependency_graph), digraph_edges(self.dependency_graph))
    }

    /// The modules analysed, in order.
    pub open spec fn analyzed(&self) -> Seq<Module> {
        self.modules@.map_values(|a: ModuleAnalysis| a.module)
    }

    /// The symbol table.
    pub open spec fn table(&self) -> Seq<(Seq<char>, Seq<char>, Seq<char>)> {
        locs_view(self.global_symbol_table@)
    }

    /// The module name of each node of the dependency graph.
    pub open spec fn node_labels(&self) -> Seq<Seq<char>> {
        views(self.graph_nodes@)
    }

    /// The edges of the dependency graph, in the order they were added.
    pub open spec fn edges(&self) -> Seq<(usize, usize)> {
        digraph_edges(self.dependency_graph)
    }

    /// An empty unit resolving paths with `module_registry`.
    pub fn new(module_registry: Arc<ModuleRegistry>) -> (r: Self)
        ensures
            r.wf(),
            r.modules@.len() == 0,
            r.global_symbol_table@.len() == 0,
            r.node_labels().len() == 0,
            r.edges().len() == 0,
    {
        let r = CompilationUnit {
            modules: Vec::new(),
            global_symbol_table: Vec::new(),
            dependency_graph: digraph_new(),
            graph_nodes: Vec::new(),
            module_registry,
        };
        assert(r.node_labels() =~= Seq::<Seq<char>>::empty());
        r
    }

    /// The position of the analysis of module `id`.
    fn find_analysis(&self, id: &str) -> (r: Option<usize>)
        requires
            forall|i: int| 0 <= i < self.modules@.len() ==> base_ok(#[trigger] self.modules@[i]),
        ensures
            match r {
                Some(i) => last_index_of(module_ids(self.analyzed()), id@) == Some(i as int) && i < self.modules@.len(),
                None => last_index_of(module_ids(self.analyzed()), id@) is None,
            },
    {
        let ghost ids = module_ids(self.analyzed());
        let mut j: usize = self.modules.len();
        assert(ids.take(j as int) =~= ids);
        while j > 0
            invariant
                ids == module_ids(self.analyzed()),
                ids.len() == self.modules@.len(),
                forall|i: int| 0 <= i < self.modules@.len() ==> base_ok(#[trigger] self.modules@[i]),
                j <= self.modules.len(),
                last_index_of(ids, id@) == last_index_of(ids.take(j as int), id@),
            decreases j,
        {
            assert(base_ok(self.modules@[j - 1]));
            assert(ids[j - 1] == self.modules@[j - 1].module.name@);
            if str_eq(self.modules[j - 1].id.as_str(), id) {
                assert(ids.take(j as int).last() == id@);
                return Some(j - 1);
            }
            assert(ids.take(j as int).drop_last() =~= ids.take(j - 1));
            j = j - 1;
        }
        None
    }

    /// The position of the table entry under a canonical reference.
    fn find_location(&self, canonical: &str) -> (r: Option<usize>)
        ensures
            match r {
                Some(i) => last_index_of(loc_refs(self.table()), canonical@) == Some(i as int) && i
                    < self.global_symbol_table@.len(),
                None => last_index_of(loc_refs(self.table()), canonical@) is None,
            },
    {
        let ghost keys = loc_refs(self.table());
        let mut j: usize = self.global_symbol_table.len();
        assert(keys.take(j as int) =~= keys);
        while j > 0
            invariant
                keys == loc_refs(self.table()),
                keys.len() == self.global_symbol_table@.len(),
                j <= self.global_symbol_table.len(),
                last_index_of(keys, canonical@) == last_index_of(keys.take(j as int), canonical@),
            decreases j,
        {
            assert(keys[j - 1] == self.global_symbol_table@[j - 1].canonical_ref@);
            if str_eq(self.global_symbol_table[j - 1].canonical_ref.as_str(), canonical) {
                assert(keys.take(j as int).last() == canonical@);
                return Some(j - 1);
            }
            assert(keys.take(j as int).drop_last() =~= keys.take(j - 1));
            j = j - 1;
        }
        None
    }

    /// Put a location into the table under its canonical reference.
    fn insert_location(&mut self, loc: TypeLocation)
        ensures
            final(self).table() == with_location(old(self).table(), loc@),
            final(self).modules == old(self).modules,
            final(self).dependency_graph == old(self).dependency_graph,
            final(self).graph_nodes == old(self).graph_nodes,
    {
        let ghost lv = loc@;
        let ghost t0 = self.table();
        match self.find_location(loc.canonical_ref.as_str()) {
            Some(i) => {
                self.global_symbol_table.set(i, loc);
                assert(self.table() =~= t0.update(i as int, lv));
            },
            None => {
                self.global_symbol_table.push(loc);
                assert(self.table() =~= t0.push(lv));
            },
        }
    }

    /// Record a module's types in the table and its analysis, replacing
    /// the analysis of a module of the same name.
    fn register_module(&mut self, module: Module)
        requires
            forall|i: int| 0 <= i < old(self).modules@.len() ==> base_ok(#[trigger] old(self).modules@[i]),
        ensures
            forall|i: int| 0 <= i < final(self).modules@.len() ==> base_ok(#[trigger] final(self).modules@[i]),
            final(self).table() == with_module_types(old(self).table(), module.name@, module.types@),
            final(self).analyzed() == with_module(old(self).analyzed(), module),
            final(self).dependency_graph == old(self).dependency_graph,
            final(self).graph_nodes == old(self).graph_nodes,
    {
        let ghost t0 = self.table();
        let mut provided: Vec<String> = Vec::new();
        let mut k: usize = 0;
        assert(module.types@.take(0) =~= Seq::<TypeDefinition>::empty());
        assert(def_names(module.types@.take(0)) =~= Seq::<Seq<char>>::empty());
        while k < module.types.len()
            invariant
                k <= module.types.len(),
                self.table() == with_module_types(t0, module.name@, module.types@.take(k as int)),
                views(provided@) == add_all(Seq::empty(), def_names(module.types@.take(k as int))),
                self.modules == old(self).modules,
                self.dependency_graph == old(self).dependency_graph,
                self.graph_nodes == old(self).graph_nodes,
            decreases module.types.len() - k,
        {
            let name = &module.types[k].name;
            let canonical = concat(concat(module.name.as_str(), ".").as_str(), name.as_str());
            assert(module.types@.take(k + 1).drop_last() =~= module.types@.take(k as int));
            assert(module.types@.take(k + 1).last() == module.types@[k as int]);
            assert(def_names(module.types@.take(k + 1)) =~= def_names(module.types@.take(k as int)).push(name@));
            self.insert_location(
                TypeLocation { module_id: module.name.clone(), typename: name.clone(), canonical_ref: canonical },
            );
            let ghost p0 = views(provided@);
            assert(add_all(Seq::empty(), def_names(module.types@.take(k + 1))) == add_distinct(p0, name@)) by {
                assert(def_names(module.types@.take(k + 1)).drop_last() =~= def_names(module.types@.take(k as int)));
            }
            if !contains_str(&provided, name.as_str()) {
                provided.push(name.clone());
                assert(views(provided@) =~= p0.push(name@));
            }
            k = k + 1;
        }
        assert(module.types@.take(k as int) =~= module.types@);
        let ghost m = module;
        let ghost before = self.analyzed();
        let id = module.name.clone();
        let analysis = ModuleAnalysis {
            id,
            module,
            external_refs: Vec::new(),
            provided_types: provided,
            required_imports: Vec::new(),
        };
        assert(base_ok(analysis));
        match self.find_analysis(analysis.id.as_str()) {
            Some(i) => {
                self.modules.set(i, analysis);
                assert(self.analyzed() =~= before.update(i as int, m));
            },
            None => {
                self.modules.push(analysis);
                assert(self.analyzed() =~= before.push(m));
            },
        }
    }

    /// Add the external references of a type of module `current` to
    /// `refs`, each once.
    fn collect_type_references(&self, ty: &Type, current: &str, refs: &mut Vec<String>)
        ensures
            views(final(refs)@) == add_all(views(old(refs)@), unit_refs(ty@, current@, self.table())),
        decreases ty,
    {
        let ghost t = self.table();
        let ghost r0 = views(refs@);
        match ty {
            Type::Reference { name, module } => {
                let found = match module {
                    Some(m) => {
                        if str_eq(m.as_str(), current) {
                            None
                        } else {
                            Some(concat(concat(m.as_str(), ".").as_str(), name.as_str()))
                        }
                    },
                    None => {
                        let c = self.resolve_type_reference(name.as_str(), current);
                        if starts_with(c.as_str(), current) {
                            None
                        } else {
                            Some(c)
                        }
                    },
                };
                match found {
                    Some(x) => {
                        assert(unit_refs(ty@, current@, t) == seq![x@]);
                        assert(seq![x@].drop_last() =~= Seq::<Seq<char>>::empty());
                        assert(add_all(r0, seq![x@]) == add_distinct(r0, x@)) by {
                            assert(add_all(r0, Seq::<Seq<char>>::empty()) == r0);
                        }
                        if !contains_str(refs, x.as_str()) {
                            refs.push(x);
                            assert(views(refs@) =~= r0.push(x@));
                        }
                    },
                    None => {
                        assert(unit_refs(ty@, current@, t) =~= Seq::<Seq<char>>::empty());
                        assert(add_all(r0, Seq::<Seq<char>>::empty()) == r0);
                    },
                }
            },
            Type::Array(inner) => {
                self.collect_type_references(inner, current, refs);
                assert(unit_refs(ty@, current@, t) == unit_refs(inner@, current@, t));
            },
            Type::Optional(inner) => {
                self.collect_type_references(inner, current, refs);
                assert(unit_refs(ty@, current@, t) == unit_refs(inner@, current@, t));
            },
            Type::Union { types, coercion_hint: _ } => {
                let ghost tv = types_view(types@);
                proof {
                    lemma_types_view(types@);
                    assert(tv.take(0) =~= Seq::<TypeView>::empty());
                }
                let mut i: usize = 0;
                while i < types.len()
                    invariant
                        *ty == (Type::Union { types: *types, coercion_hint: ty->Union_coercion_hint }),
                        t == self.table(),
                        tv == types_view(types@),
                        tv.len() == types.len(),
                        forall|j: int| 0 <= j < types.len() ==> #[trigger] tv[j] == types@[j]@,
                        i <= types.len(),
                        views(refs@) == add_all(r0, unit_types_refs(tv.take(i as int), current@, t)),
                    decreases types.len() - i,
                {
                    proof {
                        vstd::std_specs::vec::axiom_vec_index_decreases(*types, i as int);
                        assert(decreases_to!(*ty => (*ty)->Union_types));
                        assert(tv.take(i + 1).drop_last() =~= tv.take(i as int));
                        assert(tv.take(i + 1).last() == tv[i as int]);
                        lemma_add_all_concat(
                            r0,
                            unit_types_refs(tv.take(i as int), current@, t),
                            unit_refs(tv[i as int], current@, t),
                        );
                    }
                    self.collect_type_references(&types[i], current, refs);
                    i = i + 1;
                }
                assert(tv.take(types.len() as int) =~= tv);
                assert(unit_refs(ty@, current@, t) == unit_types_refs(tv, current@, t));
            },
            Type::Record { fields, open: _ } => {
                let ghost fv = fields_view(fields@);
                proof {
                    lemma_fields_view(fields@);
                    assert(fv.take(0) =~= Seq::<(Seq<char>, FieldView)>::empty());
                }
                let mut i: usize = 0;
                while i < fields.len()
                    invariant
                        *ty == (Type::Record { fields: *fields, open: ty->Record_open }),
                        t == self.table(),
                        fv == fields_view(fields@),
                        fv.len() == fields.len(),
                        forall|j: int| 0 <= j < fields.len() ==> #[trigger] fv[j] == (fields@[j].0@, fields@[j].1@),
                        i <= fields.len(),
                        views(refs@) == add_all(r0, unit_fields_refs(fv.take(i as int), current@, t)),
                    decreases fields.len() - i,
                {
                    proof {
                        vstd::std_specs::vec::axiom_vec_index_decreases(*fields, i as int);
                        assert(decreases_to!(*ty => (*ty)->Record_fields));
                        assert(decreases_to!(fields@[i as int] => fields@[i as int].1));
                        assert(decreases_to!(fields@[i as int].1 => fields@[i as int].1.ty));
                        assert(fv.take(i + 1).drop_last() =~= fv.take(i as int));
                        assert(fv.take(i + 1).last() == fv[i as int]);
                        lemma_add_all_concat(
                            r0,
                            unit_fields_refs(fv.take(i as int), current@, t),
                            unit_refs(fv[i as int].1.ty, current@, t),
                        );
                    }
                    self.collect_type_references(&fields[i].1.ty, current, refs);
                    i = i + 1;
                }
                assert(fv.take(fields.len() as int) =~= fv);
                assert(unit_refs(ty@, current@, t) == unit_fields_refs(fv, current@, t));
            },
            _ => {
                assert(unit_refs(ty@, current@, t) =~= Seq::<Seq<char>>::empty());
                assert(add_all(r0, Seq::<Seq<char>>::empty()) == r0);
            },
        }
    }

    /// The external references of a module.
    fn module_references(&self, module: &Module) -> (r: Vec<String>)
        ensures
            views(r@) == module_refs(*module, self.table()),
    {
        let mut refs: Vec<String> = Vec::new();
        let mut k: usize = 0;
        assert(module.types@.take(0) =~= Seq::<TypeDefinition>::empty());
        assert(views(refs@) =~= Seq::<Seq<char>>::empty());
        while k < module.types.len()
            invariant
                k <= module.types.len(),
                views(refs@) == defs_refs(Seq::empty(), module.types@.take(k as int), module.name@, self.table()),
            decreases module.types.len() - k,
        {
            assert(module.types@.take(k + 1).drop_last() =~= module.types@.take(k as int));
            assert(module.types@.take(k + 1).last() == module.types@[k as int]);
            self.collect_type_references(&module.types[k].ty, module.name.as_str(), &mut refs);
            k = k + 1;
        }
        assert(module.types@.take(k as int) =~= module.types@);
        refs
    }

    /// What a list of references requires from other modules.
    fn imports_of(&self, refs: &Vec<String>) -> (r: Vec<(String, Vec<String>)>)
        ensures
            imports_view(r@) == imports_for(views(refs@), self.table()),
    {
        let ghost t = self.table();
        let mut imps: Vec<(String, Vec<String>)> = Vec::new();
        let mut k: usize = 0;
        assert(views(refs@).take(0) =~= Seq::<Seq<char>>::empty());
        assert(imports_view(imps@) =~= Seq::<(Seq<char>, Seq<Seq<char>>)>::empty());
        while k < refs.len()
            invariant
                t == self.table(),
                k <= refs.len(),
                imports_view(imps@) == imports_for(views(refs@).take(k as int), t),
            decreases refs.len() - k,
        {
            assert(views(refs@).take(k + 1).drop_last() =~= views(refs@).take(k as int));
            assert(views(refs@).take(k + 1).last() == refs@[k as int]@);
            match self.find_location(refs[k].as_str()) {
                Some(i) => {
                    let loc = &self.global_symbol_table[i];
                    assert(t[i as int] == loc@);
                    add_import_exec(&mut imps, loc.module_id.as_str(), loc.typename.as_str());
                },
                None => {},
            }
            k = k + 1;
        }
        assert(views(refs@).take(k as int) =~= views(refs@));
        imps
    }

    /// Work out every module's external references and requirements
    /// against the table.
    fn analyze_references(&mut self)
        requires
            forall|i: int| 0 <= i < old(self).modules@.len() ==> base_ok(#[trigger] old(self).modules@[i]),
        ensures
            final(self).analyzed() == old(self).analyzed(),
            final(self).modules@.len() == old(self).modules@.len(),
            final(self).global_symbol_table == old(self).global_symbol_table,
            final(self).dependency_graph == old(self).dependency_graph,
            final(self).graph_nodes == old(self).graph_nodes,
            forall|i: int| 0 <= i < final(self).modules@.len() ==> analysis_of(
                #[trigger] final(self).modules@[i],
                final(self).modules@[i].module,
                final(self).table(),
            ),
    {
        let mut i: usize = 0;
        while i < self.modules.len()
            invariant
                self.analyzed() == old(self).analyzed(),
                self.modules@.len() == old(self).modules@.len(),
                self.global_symbol_table == old(self).global_symbol_table,
                self.dependency_graph == old(self).dependency_graph,
                self.graph_nodes == old(self).graph_nodes,
                i <= self.modules.len(),
                forall|j: int| 0 <= j < self.modules@.len() ==> base_ok(#[trigger] self.modules@[j]),
                forall|j: int| 0 <= j < i ==> analysis_of(#[trigger] self.modules@[j], self.modules@[j].module, self.table()),
            decreases self.modules.len() - i,
        {
            let ghost m0 = self.modules@;
            let mut a = self.modules.remove(i);
            assert(a == m0[i as int]);
            assert(base_ok(a));
            let refs = self.module_references(&a.module);
            let imports = self.imports_of(&refs);
            a.external_refs = refs;
            a.required_imports = imports;
            self.modules.insert(i, a);
            assert(self.modules@ =~= m0.update(i as int, a));
            assert(self.analyzed() =~= m0.map_values(|x: ModuleAnalysis| x.module));
            i = i + 1;
        }
    }

    /// Add a node per analysed module, in order, and an edge from each
    /// module to each module defining a type it refers to.
    fn build_dependency_graph(&mut self)
        requires
            old(self).graph_wf(),
            forall|i: int| 0 <= i < old(self).modules@.len() ==> analysis_of(
                #[trigger] old(self).modules@[i],
                old(self).modules@[i].module,
                old(self).table(),
            ),
            old(self).graph_nodes@.len() + old(self).modules@.len() < u32::MAX,
            old(self).edges().len() + refs_total(old(self).analyzed(), old(self).table(), old(self).modules@.len() as int)
                <= u32::MAX,
        ensures
            final(self).graph_wf(),
            final(self).modules == old(self).modules,
            final(self).global_symbol_table == old(self).global_symbol_table,
            final(self).node_labels() == old(self).node_labels() + module_ids(old(self).analyzed()),
            final(self).edges() == old(self).edges() + unit_edges(
                old(self).node_labels().len(),
                old(self).analyzed(),
                old(self).table(),
                old(self).modules@.len() as int,
            ),
    {
        let ghost ms = self.analyzed();
        let ghost t = self.table();
        let ghost e0 = self.edges();
        let ghost n = self.modules@.len();
        let base = self.graph_nodes.len();
        let mut i: usize = 0;
        while i < self.modules.len()
            invariant
                self.graph_wf(),
                self.modules == old(self).modules,
                self.global_symbol_table == old(self).global_symbol_table,
                ms == self.analyzed(),
                n == self.modules@.len(),
                base == old(self).graph_nodes@.len(),
                base + n < u32::MAX,
                i <= n,
                forall|j: int| 0 <= j < self.modules@.len() ==> analysis_of(
                    #[trigger] self.modules@[j],
                    self.modules@[j].module,
                    self.table(),
                ),
                self.graph_nodes@.len() == base + i,
                self.node_labels() == old(self).node_labels() + module_ids(ms.take(i as int)),
                self.edges() == e0,
                e0 == old(self).edges(),
            decreases n - i,
        {
            digraph_add_node(&mut self.dependency_graph);
            let ghost l0 = self.node_labels();
            self.graph_nodes.push(self.modules[i].id.clone());
            assert(analysis_of(self.modules@[i as int], self.modules@[i as int].module, self.table()));
            assert(ms[i as int] == self.modules@[i as int].module);
            assert(self.node_labels() =~= l0.push(ms[i as int].name@));
            assert(module_ids(ms.take(i + 1)) =~= module_ids(ms.take(i as int)).push(ms[i as int].name@));
            i = i + 1;
        }
        assert(ms.take(n as int) =~= ms);
        let mut i: usize = 0;
        while i < self.modules.len()
            invariant
                self.graph_wf(),
                self.modules == old(self).modules,
                self.global_symbol_table == old(self).global_symbol_table,
                forall|j: int| 0 <= j < self.modules@.len() ==> analysis_of(
                    #[trigger] self.modules@[j],
                    self.modules@[j].module,
                    self.table(),
                ),
                ms == self.analyzed(),
                t == self.table(),
                n == self.modules@.len(),
                base == old(self).graph_nodes@.len(),
                self.node_labels() == old(self).node_labels() + module_ids(ms),
                self.graph_nodes@.len() == base + n,
                base + n < u32::MAX,
                e0.len() + refs_total(ms, t, n as int) <= u32::MAX,
                i <= n,
                self.edges() == e0 + unit_edges(base as nat, ms, t, i as int),
                self.edges().len() <= e0.len() + refs_total(ms, t, i as int),
            decreases n - i,
        {
            let ghost refs_i = module_refs(ms[i as int], t);
            assert(analysis_of(self.modules@[i as int], self.modules@[i as int].module, self.table()));
            assert(views(self.modules@[i as int].external_refs@) == refs_i);
            let ghost before = self.edges();
            proof {
                lemma_refs_total_mono(ms, t, i as int + 1, n as int);
            }
            let mut k: usize = 0;
            assert(refs_i.take(0) =~= Seq::<Seq<char>>::empty());
            while k < self.modules[i].external_refs.len()
                invariant
                    self.graph_wf(),
                    self.modules == old(self).modules,
                    self.global_symbol_table == old(self).global_symbol_table,
                    forall|j: int| 0 <= j < self.modules@.len() ==> base_ok(#[trigger] self.modules@[j]),
                    ms == self.analyzed(),
                    t == self.table(),
                    n == self.modules@.len(),
                    i < n,
                    base == old(self).graph_nodes@.len(),
                    self.graph_nodes@.len() == base + n,
                    base + n < u32::MAX,
                    self.node_labels() == old(self).node_labels() + module_ids(ms),
                    refs_i == module_refs(ms[i as int], t),
                    views(self.modules@[i as int].external_refs@) == refs_i,
                    before == e0 + unit_edges(base as nat, ms, t, i as int),
                    before.len() <= e0.len() + refs_total(ms, t, i as int),
                    e0.len() + refs_total(ms, t, i as int + 1) <= u32::MAX,
                    k <= refs_i.len(),
                    self.edges() == before + ref_edges(base as nat, i as int, module_ids(ms), refs_i.take(k as int), t),
                    self.edges().len() <= before.len() + k,
                decreases refs_i.len() - k,
            {
                assert(refs_i.take(k + 1).drop_last() =~= refs_i.take(k as int));
                assert(refs_i.take(k + 1).last() == refs_i[k as int]);
                assert(refs_i[k as int] == self.modules@[i as int].external_refs@[k as int]@);
                let target = match self.find_location(self.modules[i].external_refs[k].as_str()) {
                    Some(l) => {
                        let loc = &self.global_symbol_table[l];
                        assert(t[l as int] == loc@);
                        self.find_analysis(loc.module_id.as_str())
                    },
                    None => None,
                };
                match target {
                    Some(j) => {
                        digraph_add_edge(&mut self.dependency_graph, base + i, base + j);
                    },
                    None => {},
                }
                k = k + 1;
            }
            assert(refs_i.take(refs_i.len() as int) =~= refs_i);
            assert(self.edges() =~= e0 + unit_edges(base as nat, ms, t, i as int + 1));
            i = i + 1;
        }
    }

    /// Analyse modules: record their types and analyses (replacing those of
    /// modules of the same names), work out every module's external
    /// references and requirements, and add to the dependency graph a node
    /// per analysed module with the edges between them.
    pub fn analyze_modules(&mut self, modules: Vec<Module>) -> (r: Result<(), CoreError>)
        requires
            old(self).wf(),
            old(self).graph_nodes@.len() + with_modules(old(self).analyzed(), modules@).len() < u32::MAX,
            old(self).edges().len() + refs_total(
                with_modules(old(self).analyzed(), modules@),
                with_all_types(old(self).table(), modules@),
                with_modules(old(self).analyzed(), modules@).len() as int,
            ) <= u32::MAX,
        ensures
            r is Ok,
            final(self).wf(),
            final(self).analyzed() == with_modules(old(self).analyzed(), modules@),
            final(self).table() == with_all_types(old(self).table(), modules@),
            final(self).node_labels() == old(self).node_labels() + module_ids(final(self).analyzed()),
            final(self).edges() == old(self).edges() + unit_edges(
                old(self).node_labels().len(),
                final(self).analyzed(),
                final(self).table(),
                final(self).analyzed().len() as int,
            ),
    {
        let ghost all = modules@;
        let mut ms = modules;
        let ghost mut k: int = 0;
        while ms.len() > 0
            invariant
                0 <= k <= all.len(),
                ms@ == all.skip(k),
                forall|i: int| 0 <= i < self.modules@.len() ==> base_ok(#[trigger] self.modules@[i]),
                self.analyzed() == with_modules(old(self).analyzed(), all.take(k)),
                self.table() == with_all_types(old(self).table(), all.take(k)),
                self.dependency_graph == old(self).dependency_graph,
                self.graph_nodes == old(self).graph_nodes,
            decreases ms.len(),
        {
            let m = ms.remove(0);
            assert(m == all[k]);
            assert(all.take(k + 1).drop_last() =~= all.take(k));
            assert(all.take(k + 1).last() == all[k]);
            self.register_module(m);
            proof {
                k = k + 1;
            }
            assert(ms@ =~= all.skip(k));
        }
        assert(all.take(k) =~= all);
        self.analyze_references();
        self.build_dependency_graph();
        Ok(())
    }

    /// What a module requires from other modules; `None` for a module not
    /// analysed.
    pub fn get_module_imports(&self, module_id: &str) -> (r: Option<&Vec<(String, Vec<String>)>>)
        requires
            self.wf(),
        ensures
            match last_index_of(module_ids(self.analyzed()), module_id@) {
                Some(i) => r matches Some(v) && *v == self.modules@[i].required_imports,
                None => r is None,
            },
    {
        match self.find_analysis(module_id) {
            Some(i) => Some(&self.modules[i].required_imports),
            None => None,
        }
    }

    /// Whether the dependency graph has a cycle.
    pub fn has_circular_dependencies(&self) -> (r: bool)
        requires
            self.graph_wf(),
        ensures
            r == has_cycle(self.graph_nodes@.len() as nat, self.edges()),
    {
        digraph_is_cyclic(&self.dependency_graph)
    }

    /// The module names in dependency order (each before those its edges
    /// lead to), or a circular-dependency error when the graph has a cycle.
    pub fn get_modules_in_order(&self) -> (r: Result<Vec<String>, CoreError>)
        requires
            self.graph_wf(),
        ensures
            match r {
                Ok(names) => !has_cycle(self.graph_nodes@.len() as nat, self.edges()) && views(names@)
                    == petgraph_toposort(self.graph_nodes@.len() as nat, self.edges()).map_values(
                    |i: usize| self.node_labels()[i as int],
                ),
                Err(e) => has_cycle(self.graph_nodes@.len() as nat, self.edges()) && (e matches CoreError::CircularDependency(
                    m,
                ) && m@ == "Circular dependency detected in module graph"@),
            },
    {
        match digraph_toposort(&self.dependency_graph) {
            Some(order) => {
                let mut out: Vec<String> = Vec::new();
                let mut k: usize = 0;
                while k < order.len()
                    invariant
                        self.graph_wf(),
                        crate::digraph::is_topological_order(self.graph_nodes@.len() as nat, self.edges(), order@),
                        k <= order.len(),
                        views(out@) == order@.take(k as int).map_values(|i: usize| self.node_labels()[i as int]),
                    decreases order.len() - k,
                {
                    let i = order[k];
                    assert(order@[k as int] < self.graph_nodes@.len());
                    let ghost o0 = views(out@);
                    out.push(self.graph_nodes[i].clone());
                    assert(views(out@) =~= o0.push(self.node_labels()[i as int]));
                    assert(order@.take(k + 1).map_values(|i: usize| self.node_labels()[i as int]) =~= order@.take(
                        k as int,
                    ).map_values(|i: usize| self.node_labels()[i as int]).push(self.node_labels()[i as int]));
                    k = k + 1;
                }
                assert(order@.take(order.len() as int) =~= order@);
                Ok(out)
            },
            None => Err(CoreError::CircularDependency(to_owned_string("Circular dependency detected in module graph"))),
        }
    }

    /// What a reference to `name` from module `current` means.
    fn resolve_type_reference(&self, name: &str, current: &str) -> (r: String)
        ensures
            r@ == resolve_spec(self.table(), name@, current@),
    {
        let local = concat(concat(current, ".").as_str(), name);
        if self.find_location(local.as_str()).is_some() {
            proof {
                lemma_last_index_of(loc_refs(self.table()), local@);
            }
            return local;
        }
        proof {
            lemma_last_index_of(loc_refs(self.table()), local@);
        }
        let ghost t = self.table();
        let mut i: usize = 0;
        assert(t.take(0) =~= Seq::<(Seq<char>, Seq<char>, Seq<char>)>::empty());
        while i < self.global_symbol_table.len()
            invariant
                t == self.table(),
                t.len() == self.global_symbol_table@.len(),
                i <= self.global_symbol_table.len(),
                first_with_name(t.take(i as int), name@) is None,
                !loc_refs(t).contains(qualified(current@, name@)),
            decreases self.global_symbol_table.len() - i,
        {
            assert(t.take(i + 1).drop_last() =~= t.take(i as int));
            assert(t[i as int] == self.global_symbol_table@[i as int]@);
            if str_eq(self.global_symbol_table[i].typename.as_str(), name) {
                proof {
                    assert(t.take(i + 1).last() == t[i as int]);
                    assert(first_with_name(t.take(i + 1), name@) == Some(i as int));
                    lemma_first_with_name_prefix(t, name@, i as int + 1);
                }
                return self.global_symbol_table[i].canonical_ref.clone();
            }
            i = i + 1;
        }
        assert(t.take(i as int) =~= t);
        name.to_owned()
    }
}

} // verus!
