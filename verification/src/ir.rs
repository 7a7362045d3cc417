//! The intermediate representation: modules of type definitions, their
//! construction, lookup, and the removal of duplicate definitions.

use vstd::prelude::*;
use vstd::string::StringExecFns;
use crate::json::JsonValue;
use crate::text::{str_eq, to_owned_string};
use crate::types::{field_position, fields_view, map_get, Type, TypeView};

verus! {

broadcast use vstd::string::group_string_axioms;

/// An import of a generated module.
#[derive(Debug, Clone)]
pub struct Import {
    /// The path imported.
    pub path: String,
    /// The alias it is bound to.
    pub alias: Option<String>,
    /// The items imported from it.
    pub items: Vec<String>,
}

/// Where a type is defined.
#[derive(Debug, Clone)]
pub struct TypeLocation {
    /// The module holding the type.
    pub module_id: String,
    /// The type's name.
    pub typename: String,
    /// The full canonical reference.
    pub canonical_ref: String,
}

/// A named type definition.
#[derive(Debug)]
pub struct TypeDefinition {
    pub name: String,
    pub ty: Type,
    pub documentation: Option<String>,
    /// Annotations, in key order.
    pub annotations: Vec<(String, JsonValue)>,
}

/// A named constant.
#[derive(Debug)]
pub struct Constant {
    pub name: String,
    pub ty: Type,
    pub value: JsonValue,
    pub documentation: Option<String>,
}

/// Where a module comes from.
#[derive(Debug)]
pub struct Metadata {
    pub source_language: Option<String>,
    pub source_file: Option<String>,
    pub version: Option<String>,
    pub generated_at: Option<String>,
    /// Further entries, in key order.
    pub custom: Vec<(String, JsonValue)>,
}

/// Metadata with nothing recorded.
pub open spec fn empty_metadata(m: Metadata) -> bool {
    &&& m.source_language is None
    &&& m.source_file is None
    &&& m.version is None
    &&& m.generated_at is None
    &&& m.custom@.len() == 0
}

impl Default for Metadata {
    fn default() -> (r: Metadata)
        ensures
            empty_metadata(r),
    {
        Metadata { source_language: None, source_file: None, version: None, generated_at: None, custom: Vec::new() }
    }
}

/// A module of the intermediate representation.
#[derive(Debug)]
pub struct Module {
    pub name: String,
    pub imports: Vec<Import>,
    pub types: Vec<TypeDefinition>,
    pub constants: Vec<Constant>,
    pub metadata: Metadata,
}

/// The intermediate representation of a schema: its modules.
#[derive(Debug)]
pub struct IR {
    pub modules: Vec<Module>,
}

/// The type definitions of the modules, module after module.
pub open spec fn all_definitions(modules: Seq<Module>) -> Seq<TypeDefinition>
    decreases modules.len(),
{
    if modules.len() == 0 {
        Seq::empty()
    } else {
        all_definitions(modules.drop_last()) + modules.last().types@
    }
}

/// The position of the first definition named `name`, if any.
pub open spec fn first_named(defs: Seq<TypeDefinition>, name: Seq<char>) -> Option<int> {
    if exists|i: int| 0 <= i < defs.len() && #[trigger] defs[i].name@ == name {
        Some(choose|i: int| 0 <= i < defs.len() && #[trigger] defs[i].name@ == name && forall|j: int| 0 <= j < i ==> defs[j].name@ != name)
    } else {
        None
    }
}

// ---------------------------------------------------------------------------
// Kubernetes list types and the removal of duplicate definitions
// ---------------------------------------------------------------------------

/// A Kubernetes list type: a record with an `items` array and `apiVersion`,
/// `kind` and `metadata` fields.
pub open spec fn is_list_spec(t: TypeView) -> bool {
    match t {
        TypeView::Record { fields, open: _ } => {
            &&& match map_get(fields, "items"@) {
                Some(f) => f.ty is Array,
                None => false,
            }
            &&& map_get(fields, "apiVersion"@) is Some
            &&& map_get(fields, "kind"@) is Some
            &&& map_get(fields, "metadata"@) is Some
        },
        _ => false,
    }
}

/// Whether a type is a Kubernetes list type.
pub fn is_k8s_list_type(ty: &Type) -> (r: bool)
    ensures
        r == is_list_spec(ty@),
{
    match ty {
        Type::Record { fields, open: _ } => {
            let has_items_array = match field_position(fields, "items") {
                Some(p) => {
                    proof {
                        crate::types::lemma_fields_view(fields@);
                    }
                    match &fields[p].1.ty {
                        Type::Array(_) => true,
                        _ => false,
                    }
                },
                None => false,
            };
            let has_api_version = field_position(fields, "apiVersion").is_some();
            let has_kind = field_position(fields, "kind").is_some();
            let has_metadata = field_position(fields, "metadata").is_some();
            has_items_array && has_api_version && has_kind && has_metadata
        },
        _ => false,
    }
}

/// Another definition has the name of definition `i`.
pub open spec fn has_duplicate(ts: Seq<TypeDefinition>, i: int) -> bool {
    exists|j: int| 0 <= j < ts.len() && j != i && #[trigger] ts[j].name@ == ts[i].name@
}

/// Definition `i` is a Kubernetes list type.
pub open spec fn is_list_def(ts: Seq<TypeDefinition>, i: int) -> bool {
    is_list_spec(ts[i].ty@)
}

/// Definition `i` goes: its name is repeated, it is no list type, and an
/// earlier definition of that name is no list type either.
pub open spec fn dedup_removed(ts: Seq<TypeDefinition>, i: int) -> bool {
    &&& has_duplicate(ts, i)
    &&& !is_list_def(ts, i)
    &&& exists|j: int| 0 <= j < i && #[trigger] ts[j].name@ == ts[i].name@ && !is_list_def(ts, j)
}

/// The name definition `i` ends with: a list type whose name is repeated
/// gets `List` appended.
pub open spec fn dedup_name(ts: Seq<TypeDefinition>, i: int) -> Seq<char> {
    if has_duplicate(ts, i) && is_list_def(ts, i) {
        ts[i].name@ + "List"@
    } else {
        ts[i].name@
    }
}

/// The positions of the first `k` definitions that stay, in order.
pub open spec fn dedup_kept(ts: Seq<TypeDefinition>, k: int) -> Seq<int>
    decreases k,
{
    if k <= 0 {
        Seq::empty()
    } else {
        let prev = dedup_kept(ts, k - 1);
        if dedup_removed(ts, k - 1) {
            prev
        } else {
            prev.push(k - 1)
        }
    }
}

/// `after` is `before` with duplicate definitions removed: the definitions
/// that stay keep their order, type, documentation and annotations, and
/// take their final name.
pub open spec fn deduplicated(before: Seq<TypeDefinition>, after: Seq<TypeDefinition>) -> bool {
    let kept = dedup_kept(before, before.len() as int);
    &&& after.len() == kept.len()
    &&& forall|k: int|
        0 <= k < kept.len() ==> {
            &&& (#[trigger] after[k]).ty == before[kept[k]].ty
            &&& after[k].documentation == before[kept[k]].documentation
            &&& after[k].annotations == before[kept[k]].annotations
            &&& after[k].name@ == dedup_name(before, kept[k])
        }
}

impl Module {
    /// Remove duplicate type definitions: where a name is repeated, list
    /// types are renamed `{Name}List` and only the first other definition
    /// stays.
    pub fn deduplicate_types(&mut self)
        ensures
            deduplicated(old(self).types@, final(self).types@),
            final(self).name == old(self).name,
            final(self).imports == old(self).imports,
            final(self).constants == old(self).constants,
            final(self).metadata == old(self).metadata,
    {
        let ghost ts = self.types@;
        let n = self.types.len();
        let mut lists: Vec<bool> = Vec::new();
        let mut i: usize = 0;
        while i < n
            invariant
                n == self.types.len(),
                ts == self.types@,
                i <= n,
                lists@.len() == i,
                forall|j: int| 0 <= j < i ==> #[trigger] lists@[j] == is_list_def(ts, j),
            decreases n - i,
        {
            lists.push(is_k8s_list_type(&self.types[i].ty));
            i = i + 1;
        }
        let mut removed: Vec<bool> = Vec::new();
        let mut renamed: Vec<bool> = Vec::new();
        i = 0;
        while i < n
            invariant
                n == self.types.len(),
                ts == self.types@,
                lists@.len() == n,
                forall|j: int| 0 <= j < n ==> #[trigger] lists@[j] == is_list_def(ts, j),
                i <= n,
                removed@.len() == i,
                renamed@.len() == i,
                forall|j: int| 0 <= j < i ==> #[trigger] removed@[j] == dedup_removed(ts, j),
                forall|j: int| 0 <= j < i ==> #[trigger] renamed@[j] == (has_duplicate(ts, j) && is_list_def(ts, j)),
            decreases n - i,
        {
            let mut dup = false;
            let mut earlier_plain = false;
            let mut j: usize = 0;
            while j < n
                invariant
                    n == self.types.len(),
                    ts == self.types@,
                    lists@.len() == n,
                    forall|k: int| 0 <= k < n ==> #[trigger] lists@[k] == is_list_def(ts, k),
                    i < n,
                    j <= n,
                    dup == exists|k: int| 0 <= k < j && k != i && #[trigger] ts[k].name@ == ts[i as int].name@,
                    earlier_plain == exists|k: int| 0 <= k < j && k < i && #[trigger] ts[k].name@ == ts[i as int].name@
                        && !is_list_def(ts, k),
                decreases n - j,
            {
                if j != i && str_eq(self.types[j].name.as_str(), self.types[i].name.as_str()) {
                    dup = true;
                    if j < i && !lists[j] {
                        earlier_plain = true;
                    }
                }
                j = j + 1;
            }
            removed.push(dup && !lists[i] && earlier_plain);
            renamed.push(dup && lists[i]);
            i = i + 1;
        }
        let mut src: Vec<TypeDefinition> = Vec::new();
        std::mem::swap(&mut src, &mut self.types);
        let mut out: Vec<TypeDefinition> = Vec::new();
        i = 0;
        let ghost mut kept: Seq<int> = Seq::empty();
        while i < n
            invariant
                n == ts.len(),
                src@ == ts.skip(i as int),
                removed@.len() == n,
                renamed@.len() == n,
                forall|j: int| 0 <= j < n ==> #[trigger] removed@[j] == dedup_removed(ts, j),
                forall|j: int| 0 <= j < n ==> #[trigger] renamed@[j] == (has_duplicate(ts, j) && is_list_def(ts, j)),
                i <= n,
                kept == dedup_kept(ts, i as int),
                out@.len() == kept.len(),
                forall|k: int| 0 <= k < kept.len() ==> 0 <= #[trigger] kept[k] < i,
                forall|k: int|
                    0 <= k < kept.len() ==> {
                        &&& (#[trigger] out@[k]).ty == ts[kept[k]].ty
                        &&& out@[k].documentation == ts[kept[k]].documentation
                        &&& out@[k].annotations == ts[kept[k]].annotations
                        &&& out@[k].name@ == dedup_name(ts, kept[k])
                    },
            decreases n - i,
        {
            let mut d = src.remove(0);
            proof {
                assert(ts.skip(i as int)[0] == ts[i as int]);
                assert(ts.skip(i as int).drop_first() =~= ts.skip(i + 1));
            }
            if !removed[i] {
                if renamed[i] {
                    let mut nm = d.name.clone();
                    nm.append("List");
                    d.name = nm;
                }
                out.push(d);
                proof {
                    kept = kept.push(i as int);
                }
            }
            i = i + 1;
        }
        self.types = out;
    }
}

impl IR {
    /// An empty representation.
    pub fn new() -> (r: IR)
        ensures
            r.modules@.len() == 0,
    {
        IR { modules: Vec::new() }
    }

    /// Add a module after the others.
    pub fn add_module(&mut self, module: Module)
        ensures
            final(self).modules@ == old(self).modules@.push(module),
    {
        self.modules.push(module);
    }

    /// The first type definition named `name`, module after module.
    pub fn find_type(&self, name: &str) -> (r: Option<&TypeDefinition>)
        ensures
            match r {
                Some(d) => match first_named(all_definitions(self.modules@), name@) {
                    Some(i) => all_definitions(self.modules@)[i] == *d,
                    None => false,
                },
                None => first_named(all_definitions(self.modules@), name@) is None,
            },
    {
        let mut m: usize = 0;
        while m < self.modules.len()
            invariant
                m <= self.modules.len(),
                forall|j: int| 0 <= j < all_definitions(self.modules@.take(m as int)).len()
                    ==> #[trigger] all_definitions(self.modules@.take(m as int))[j].name@ != name@,
            decreases self.modules.len() - m,
        {
            let ghost before = all_definitions(self.modules@.take(m as int));
            let types = &self.modules[m].types;
            proof {
                assert(self.modules@.take(m + 1).drop_last() =~= self.modules@.take(m as int));
                assert(all_definitions(self.modules@.take(m + 1)) == before + types@);
            }
            let mut t: usize = 0;
            while t < types.len()
                invariant
                    m < self.modules.len(),
                    *types == self.modules@[m as int].types,
                    before == all_definitions(self.modules@.take(m as int)),
                    all_definitions(self.modules@.take(m + 1)) == before + types@,
                    forall|j: int| 0 <= j < before.len() ==> #[trigger] before[j].name@ != name@,
                    t <= types.len(),
                    forall|j: int| 0 <= j < t ==> #[trigger] types@[j].name@ != name@,
                decreases types.len() - t,
            {
                if str_eq(types[t].name.as_str(), name) {
                    proof {
                        lemma_all_definitions_prefix(self.modules@, m as int + 1);
                        let all = all_definitions(self.modules@);
                        let k = before.len() + t;
                        assert((before + types@)[k as int] == types@[t as int]);
                        assert(all[k as int] == types@[t as int]);
                        assert forall|j: int| 0 <= j < k implies all[j].name@ != name@ by {
                            if j < before.len() {
                                assert((before + types@)[j] == before[j]);
                            } else {
                                assert((before + types@)[j] == types@[j - before.len()]);
                            }
                        }
                        lemma_first_named(all, name@, k as int);
                    }
                    return Some(&types[t]);
                }
                t = t + 1;
            }
            proof {
                let after = all_definitions(self.modules@.take(m + 1));
                assert forall|j: int| 0 <= j < after.len() implies #[trigger] after[j].name@ != name@ by {
                    if j >= before.len() {
                        assert(after[j] == types@[j - before.len()]);
                    }
                }
            }
            m = m + 1;
        }
        proof {
            assert(self.modules@.take(self.modules.len() as int) =~= self.modules@);
        }
        None
    }

    /// The modules of both representations, these first.
    pub fn merge(self, other: IR) -> (r: IR)
        ensures
            r.modules@ == self.modules@ + other.modules@,
    {
        let mut s = self;
        let mut o = other;
        s.modules.append(&mut o.modules);
        s
    }

    /// Remove duplicate type definitions in every module.
    pub fn deduplicate_types(&mut self)
        ensures
            final(self).modules@.len() == old(self).modules@.len(),
            forall|i: int| 0 <= i < old(self).modules@.len() ==> {
                &&& deduplicated(old(self).modules@[i].types@, #[trigger] final(self).modules@[i].types@)
                &&& final(self).modules@[i].name == old(self).modules@[i].name
                &&& final(self).modules@[i].imports == old(self).modules@[i].imports
                &&& final(self).modules@[i].constants == old(self).modules@[i].constants
                &&& final(self).modules@[i].metadata == old(self).modules@[i].metadata
            },
    {
        let ghost ms = self.modules@;
        let mut src: Vec<Module> = Vec::new();
        std::mem::swap(&mut src, &mut self.modules);
        let mut out: Vec<Module> = Vec::new();
        let n = src.len();
        let mut i: usize = 0;
        while i < n
            invariant
                n == ms.len(),
                src@ == ms.skip(i as int),
                i <= n,
                out@.len() == i,
                forall|k: int| 0 <= k < i ==> {
                    &&& deduplicated(ms[k].types@, #[trigger] out@[k].types@)
                    &&& out@[k].name == ms[k].name
                    &&& out@[k].imports == ms[k].imports
                    &&& out@[k].constants == ms[k].constants
                    &&& out@[k].metadata == ms[k].metadata
                },
            decreases n - i,
        {
            let mut m = src.remove(0);
            proof {
                assert(ms.skip(i as int)[0] == ms[i as int]);
                assert(ms.skip(i as int).drop_first() =~= ms.skip(i + 1));
            }
            m.deduplicate_types();
            out.push(m);
            i = i + 1;
        }
        self.modules = out;
    }
}

/// The definitions of a prefix of the modules come first.
proof fn lemma_all_definitions_prefix(ms: Seq<Module>, k: int)
    requires
        0 <= k <= ms.len(),
    ensures
        all_definitions(ms.take(k)).len() <= all_definitions(ms).len(),
        forall|j: int| 0 <= j < all_definitions(ms.take(k)).len() ==> #[trigger] all_definitions(ms)[j] == all_definitions(ms.take(k))[j],
    decreases ms.len() - k,
{
    if k < ms.len() {
        lemma_all_definitions_prefix(ms, k + 1);
        assert(ms.take(k + 1).drop_last() =~= ms.take(k));
    } else {
        assert(ms.take(k) =~= ms);
    }
}

/// The first definition with a name.
proof fn lemma_first_named(defs: Seq<TypeDefinition>, name: Seq<char>, k: int)
    requires
        0 <= k < defs.len(),
        defs[k].name@ == name,
        forall|j: int| 0 <= j < k ==> defs[j].name@ != name,
    ensures
        first_named(defs, name) == Some(k),
{
    let c = choose|i: int| 0 <= i < defs.len() && #[trigger] defs[i].name@ == name && forall|j: int| 0 <= j < i ==> defs[j].name@ != name;
    assert(0 <= k < defs.len() && defs[k].name@ == name);
    if c < k {
        assert(defs[c].name@ != name);
    }
    if c > k {
        assert(defs[k].name@ != name);
    }
}

/// A builder of the intermediate representation.
pub struct IRBuilder {
    ir: IR,
    current_module: Option<Module>,
}

/// A fresh module named `name`, with nothing in it.
pub open spec fn fresh_module(m: Module, name: Seq<char>) -> bool {
    &&& m.name@ == name
    &&& m.imports@.len() == 0
    &&& m.types@.len() == 0
    &&& m.constants@.len() == 0
    &&& empty_metadata(m.metadata)
}

impl IRBuilder {
    /// The modules finished so far.
    pub closed spec fn finished(&self) -> Seq<Module> {
        self.ir.modules@
    }

    /// The module being filled, if any.
    pub closed spec fn current(&self) -> Option<Module> {
        self.current_module
    }

    /// A builder with nothing in it.
    pub fn new() -> (r: IRBuilder)
        ensures
            r.finished().len() == 0,
            r.current() is None,
    {
        IRBuilder { ir: IR::new(), current_module: None }
    }

    /// Finish the current module and start a new one named `name`.
    pub fn module(self, name: &str) -> (r: IRBuilder)
        ensures
            r.finished() == match self.current() {
                Some(m) => self.finished().push(m),
                None => self.finished(),
            },
            r.current() matches Some(m) && fresh_module(m, name@),
    {
        let mut b = self;
        let mut cur: Option<Module> = None;
        std::mem::swap(&mut cur, &mut b.current_module);
        if let Some(m) = cur {
            b.ir.add_module(m);
        }
        b.current_module = Some(Module {
            name: to_owned_string(name),
            imports: Vec::new(),
            types: Vec::new(),
            constants: Vec::new(),
            metadata: Metadata::default(),
        });
        b
    }

    /// Add a type definition to the current module (nothing happens without
    /// one).
    pub fn add_type(self, name: &str, ty: Type) -> (r: IRBuilder)
        ensures
            r.finished() == self.finished(),
            match self.current() {
                Some(m) => r.current() matches Some(m2) && {
                    &&& m2.name == m.name
                    &&& m2.imports == m.imports
                    &&& m2.constants == m.constants
                    &&& m2.metadata == m.metadata
                    &&& m2.types@.len() == m.types@.len() + 1
                    &&& m2.types@.take(m.types@.len() as int) == m.types@
                    &&& m2.types@.last().name@ == name@
                    &&& m2.types@.last().ty == ty
                    &&& m2.types@.last().documentation is None
                    &&& m2.types@.last().annotations@.len() == 0
                },
                None => r.current() is None,
            },
    {
        let mut b = self;
        let mut cur: Option<Module> = None;
        std::mem::swap(&mut cur, &mut b.current_module);
        if let Some(mut m) = cur {
            let ghost t0 = m.types@;
            m.types.push(TypeDefinition {
                name: to_owned_string(name),
                ty,
                documentation: None,
                annotations: Vec::new(),
            });
            assert(m.types@.take(t0.len() as int) =~= t0);
            b.current_module = Some(m);
        }
        b
    }

    /// Add an import of `path` to the current module (nothing happens
    /// without one).
    pub fn add_import(self, path: &str) -> (r: IRBuilder)
        ensures
            r.finished() == self.finished(),
            match self.current() {
                Some(m) => r.current() matches Some(m2) && {
                    &&& m2.name == m.name
                    &&& m2.types == m.types
                    &&& m2.constants == m.constants
                    &&& m2.metadata == m.metadata
                    &&& m2.imports@.len() == m.imports@.len() + 1
                    &&& m2.imports@.take(m.imports@.len() as int) == m.imports@
                    &&& m2.imports@.last().path@ == path@
                    &&& m2.imports@.last().alias is None
                    &&& m2.imports@.last().items@.len() == 0
                },
                None => r.current() is None,
            },
    {
        let mut b = self;
        let mut cur: Option<Module> = None;
        std::mem::swap(&mut cur, &mut b.current_module);
        if let Some(mut m) = cur {
            let ghost i0 = m.imports@;
            m.imports.push(Import { path: to_owned_string(path), alias: None, items: Vec::new() });
            assert(m.imports@.take(i0.len() as int) =~= i0);
            b.current_module = Some(m);
        }
        b
    }

    /// The representation built: the finished modules and the current one.
    pub fn build(self) -> (r: IR)
        ensures
            r.modules@ == match self.current() {
                Some(m) => self.finished().push(m),
                None => self.finished(),
            },
    {
        let mut b = self;
        let mut cur: Option<Module> = None;
        std::mem::swap(&mut cur, &mut b.current_module);
        if let Some(m) = cur {
            b.ir.add_module(m);
        }
        b.ir
    }
}

} // verus!
