//! Imports between the modules of the `k8s.io` package: which types live in
//! meta `v1`, the import statement for one, and patching a module's text.

use vstd::prelude::*;
use vstd::string::StringExecFns;
use crate::chars::{str_to_lowercase, unicode_str_lowercase};
use crate::compilation_unit::{add_all, add_distinct, lemma_add_all_concat};
use crate::text::{concat, contains_str, join, join_spec, push_char, replace, replace_spec, str_eq, views};
use crate::types::{
    fields_view, lemma_fields_view, lemma_types_view, lemma_variants_view, types_view, variants_view, FieldView,
    Type, TypeView,
};

verus! {

broadcast use vstd::string::group_string_axioms;

/// The apimachinery meta types that `k8s.io` modules import from `v1`.
pub open spec fn is_k8s_type_spec(name: Seq<char>) -> bool {
    ||| name == "ListMeta"@
    ||| name == "ObjectMeta"@
    ||| name == "LabelSelector"@
    ||| name == "Time"@
    ||| name == "MicroTime"@
    ||| name == "Status"@
    ||| name == "StatusDetails"@
    ||| name == "StatusCause"@
    ||| name == "FieldsV1"@
    ||| name == "ManagedFieldsEntry"@
    ||| name == "OwnerReference"@
    ||| name == "Preconditions"@
    ||| name == "DeleteOptions"@
    ||| name == "ListOptions"@
    ||| name == "GetOptions"@
    ||| name == "WatchEvent"@
}

/// The import statement for a meta type, unless the current module is
/// itself `v1`: `let <lower> = import "../v1/<lower>.ncl" in`.
pub open spec fn k8s_import_spec(name: Seq<char>, current_version: Seq<char>) -> Option<Seq<char>> {
    if is_k8s_type_spec(name) && current_version != "v1"@ {
        let lower = unicode_str_lowercase(name);
        Some("let "@ + lower + " = import \""@ + "../v1"@ + seq!['/'] + lower + ".ncl\" in"@)
    } else {
        None
    }
}

/// The import statements for the first `k` references, in order.
pub open spec fn k8s_imports_upto(refs: Seq<Seq<char>>, current_version: Seq<char>, k: int) -> Seq<Seq<char>>
    decreases k,
{
    if k <= 0 {
        Seq::<Seq<char>>::empty()
    } else {
        let prev = k8s_imports_upto(refs, current_version, k - 1);
        match k8s_import_spec(refs[k - 1], current_version) {
            Some(s) => prev.push(s),
            None => prev,
        }
    }
}

/// The text replacements for the first `k` references: `| T` becomes
/// `| t.T`, with `t` the lower-cased name.
pub open spec fn k8s_replacements_upto(refs: Seq<Seq<char>>, current_version: Seq<char>, k: int) -> Seq<(Seq<char>, Seq<char>)>
    decreases k,
{
    if k <= 0 {
        Seq::<(Seq<char>, Seq<char>)>::empty()
    } else {
        let prev = k8s_replacements_upto(refs, current_version, k - 1);
        let t = refs[k - 1];
        match k8s_import_spec(t, current_version) {
            Some(_) => prev.push(("| "@ + t, "| "@ + unicode_str_lowercase(t) + seq!['.'] + t)),
            None => prev,
        }
    }
}

/// `s` after the first `k` replacements, applied in order.
pub open spec fn apply_replacements(s: Seq<char>, rs: Seq<(Seq<char>, Seq<char>)>, k: int) -> Seq<char>
    decreases k,
{
    if k <= 0 {
        s
    } else {
        let prev = apply_replacements(s, rs, k - 1);
        replace_spec(prev, rs[k - 1].0, rs[k - 1].1)
    }
}

/// A module's text with the missing meta imports prepended (separated from
/// the text by a blank line) and bare references qualified; unchanged when
/// no import is needed.
pub open spec fn fix_k8s_imports_spec(content: Seq<char>, refs: Seq<Seq<char>>, current_version: Seq<char>) -> Seq<char> {
    let imports = k8s_imports_upto(refs, current_version, refs.len() as int);
    let rs = k8s_replacements_upto(refs, current_version, refs.len() as int);
    if imports.len() == 0 {
        content
    } else {
        apply_replacements(join_spec(imports, seq!['\n']) + seq!['\n', '\n'] + content, rs, rs.len() as int)
    }
}

/// Whether a type name is one of the meta types.
pub fn is_k8s_type(name: &str) -> (r: bool)
    ensures
        r == is_k8s_type_spec(name@),
{
    str_eq(name, "ListMeta") || str_eq(name, "ObjectMeta") || str_eq(name, "LabelSelector")
        || str_eq(name, "Time") || str_eq(name, "MicroTime") || str_eq(name, "Status") || str_eq(
        name,
        "StatusDetails",
    ) || str_eq(name, "StatusCause") || str_eq(name, "FieldsV1") || str_eq(
        name,
        "ManagedFieldsEntry",
    ) || str_eq(name, "OwnerReference") || str_eq(name, "Preconditions") || str_eq(
        name,
        "DeleteOptions",
    ) || str_eq(name, "ListOptions") || str_eq(name, "GetOptions") || str_eq(name, "WatchEvent")
}

/// The import statement for a meta type referenced from a module of the
/// given version.
pub fn generate_k8s_import(tname: &str, current_version: &str) -> (r: Option<String>)
    ensures
        match r {
            Some(s) => k8s_import_spec(tname@, current_version@) == Some(s@),
            None => k8s_import_spec(tname@, current_version@) is None,
        },
{
    if !is_k8s_type(tname) || str_eq(current_version, "v1") {
        return None;
    }
    let lower = str_to_lowercase(tname);
    let mut r = concat("let ", lower.as_str());
    r.append(" = import \"");
    r.append("../v1");
    let mut slash = String::new();
    push_char(&mut slash, '/');
    r.append(slash.as_str());
    r.append(lower.as_str());
    r.append(".ncl\" in");
    Some(r)
}

/// Prepend the missing meta imports to a `k8s.io` module's text and qualify
/// the bare references, in the order of `type_refs`.
pub fn fix_k8s_imports(content: &str, type_refs: &Vec<String>, current_version: &str) -> (r: String)
    ensures
        r@ == fix_k8s_imports_spec(content@, views(type_refs@), current_version@),
{
    let ghost refs = views(type_refs@);
    let mut imports: Vec<String> = Vec::new();
    let mut from_to: Vec<(String, String)> = Vec::new();
    let mut i: usize = 0;
    while i < type_refs.len()
        invariant
            refs == views(type_refs@),
            i <= type_refs.len(),
            views(imports@) == k8s_imports_upto(refs, current_version@, i as int),
            from_to@.len() == k8s_replacements_upto(refs, current_version@, i as int).len(),
            forall|k: int| 0 <= k < from_to@.len() ==> (#[trigger] from_to@[k]).0@ == k8s_replacements_upto(refs, current_version@, i as int)[k].0
                && from_to@[k].1@ == k8s_replacements_upto(refs, current_version@, i as int)[k].1,
        decreases type_refs.len() - i,
    {
        let t = &type_refs[i];
        assert(refs[i as int] == t@);
        match generate_k8s_import(t.as_str(), current_version) {
            Some(stmt) => {
                let ghost im0 = imports@;
                imports.push(stmt);
                assert(views(imports@) =~= views(im0).push(stmt@));
                let from = concat("| ", t.as_str());
                let lower = str_to_lowercase(t.as_str());
                let mut to = concat("| ", lower.as_str());
                let mut dot = String::new();
                push_char(&mut dot, '.');
                to.append(dot.as_str());
                to.append(t.as_str());
                from_to.push((from, to));
            },
            None => {},
        }
        i = i + 1;
    }
    if imports.len() == 0 {
        return crate::text::to_owned_string(content);
    }
    let mut nl = String::new();
    push_char(&mut nl, '\n');
    let mut result = join(&imports, nl.as_str());
    push_char(&mut result, '\n');
    push_char(&mut result, '\n');
    result.append(content);
    let ghost start = result@;
    proof {
        assert(start =~= join_spec(views(imports@), seq!['\n']) + seq!['\n', '\n'] + content@);
    }
    let mut k: usize = 0;
    while k < from_to.len()
        invariant
            k <= from_to.len(),
            result@ == apply_replacements(start, k8s_replacements_upto(refs, current_version@, refs.len() as int), k as int),
            from_to@.len() == k8s_replacements_upto(refs, current_version@, refs.len() as int).len(),
            forall|m: int| 0 <= m < from_to@.len() ==> (#[trigger] from_to@[m]).0@ == k8s_replacements_upto(refs, current_version@, refs.len() as int)[m].0
                && from_to@[m].1@ == k8s_replacements_upto(refs, current_version@, refs.len() as int)[m].1,
        decreases from_to.len() - k,
    {
        let (from, to) = &from_to[k];
        result = replace(result.as_str(), from.as_str(), to.as_str());
        k = k + 1;
    }
    result
}


/// The meta types a type refers to, in the order met (a reference counts
/// by its name); the search goes into arrays, optionals, map values,
/// record fields, union members, tagged variants and contract bases.
pub open spec fn k8s_refs(t: TypeView) -> Seq<Seq<char>>
    decreases t,
{
    match t {
        TypeView::Reference { name, module: _ } => if is_k8s_type_spec(name) {
            seq![name]
        } else {
            Seq::empty()
        },
        TypeView::Array(inner) => k8s_refs(*inner),
        TypeView::Optional(inner) => k8s_refs(*inner),
        TypeView::Mapping { key: _, value } => k8s_refs(*value),
        TypeView::Record { fields, open: _ } => k8s_fields_refs(fields),
        TypeView::Union { types, coercion_hint: _ } => k8s_types_refs(types),
        TypeView::TaggedUnion { tag_field: _, variants } => k8s_variants_refs(variants),
        TypeView::Contract { base, rules: _ } => k8s_refs(*base),
        _ => Seq::empty(),
    }
}

/// The meta types referred to by a list of fields, in order.
pub open spec fn k8s_fields_refs(fields: Seq<(Seq<char>, FieldView)>) -> Seq<Seq<char>>
    decreases fields,
{
    if fields.len() == 0 {
        Seq::empty()
    } else {
        proof {
            assert(fields.drop_last() =~= fields.subrange(0, fields.len() - 1));
            assert(decreases_to!(fields => fields[fields.len() - 1]));
        }
        k8s_fields_refs(fields.drop_last()) + k8s_refs(fields.last().1.ty)
    }
}

/// The meta types referred to by a list of types, in order.
pub open spec fn k8s_types_refs(types: Seq<TypeView>) -> Seq<Seq<char>>
    decreases types,
{
    if types.len() == 0 {
        Seq::empty()
    } else {
        proof {
            assert(types.drop_last() =~= types.subrange(0, types.len() - 1));
        }
        k8s_types_refs(types.drop_last()) + k8s_refs(types.last())
    }
}

/// The meta types referred to by a list of tagged variants, in order.
pub open spec fn k8s_variants_refs(variants: Seq<(Seq<char>, TypeView)>) -> Seq<Seq<char>>
    decreases variants,
{
    if variants.len() == 0 {
        Seq::empty()
    } else {
        proof {
            assert(variants.drop_last() =~= variants.subrange(0, variants.len() - 1));
            assert(decreases_to!(variants => variants[variants.len() - 1]));
        }
        k8s_variants_refs(variants.drop_last()) + k8s_refs(variants.last().1)
    }
}

/// The meta types a type refers to, each once, in the order first met.
pub fn find_k8s_type_references(ty: &Type) -> (r: Vec<String>)
    ensures
        views(r@) == add_all(Seq::empty(), k8s_refs(ty@)),
{
    let mut refs: Vec<String> = Vec::new();
    assert(views(refs@) =~= Seq::<Seq<char>>::empty());
    collect_k8s_references(ty, &mut refs);
    refs
}

fn collect_k8s_references(ty: &Type, refs: &mut Vec<String>)
    ensures
        views(final(refs)@) == add_all(views(old(refs)@), k8s_refs(ty@)),
    decreases ty,
{
    let ghost r0 = views(refs@);
    match ty {
        Type::Reference { name, module: _ } => {
            if is_k8s_type(name.as_str()) {
                assert(k8s_refs(ty@) == seq![name@]);
                assert(seq![name@].drop_last() =~= Seq::<Seq<char>>::empty());
                assert(add_all(r0, seq![name@]) == add_distinct(r0, name@)) by {
                    assert(add_all(r0, Seq::<Seq<char>>::empty()) == r0);
                }
                if !contains_str(refs, name.as_str()) {
                    refs.push(name.clone());
                    assert(views(refs@) =~= r0.push(name@));
                }
            } else {
                assert(k8s_refs(ty@) =~= Seq::<Seq<char>>::empty());
                assert(add_all(r0, Seq::<Seq<char>>::empty()) == r0);
            }
        },
        Type::Array(inner) => {
            collect_k8s_references(inner, refs);
            assert(k8s_refs(ty@) == k8s_refs(inner@));
        },
        Type::Optional(inner) => {
            collect_k8s_references(inner, refs);
            assert(k8s_refs(ty@) == k8s_refs(inner@));
        },
        Type::Mapping { key: _, value } => {
            collect_k8s_references(value, refs);
            assert(k8s_refs(ty@) == k8s_refs(value@));
        },
        Type::Contract { base, rules: _ } => {
            collect_k8s_references(base, refs);
            assert(k8s_refs(ty@) == k8s_refs(base@));
        },
        Type::Record { fields, open: _ } => {
            let ghost fv = fields_view(fields@);
            proof {
                lemma_fields_view(fields@);
                assert(fv.take(0) =~= Seq::<(Seq<char>, FieldView)>::empty());
            }
            let mut i: usize = 0;
            while i < fields.len()
                invariant
                    *ty == (Type::Record { fields: *fields, open: ty->Record_open }),
                    fv == fields_view(fields@),
                    fv.len() == fields.len(),
                    forall|j: int| 0 <= j < fields.len() ==> #[trigger] fv[j] == (fields@[j].0@, fields@[j].1@),
                    i <= fields.len(),
                    views(refs@) == add_all(r0, k8s_fields_refs(fv.take(i as int))),
                decreases fields.len() - i,
            {
                proof {
                    vstd::std_specs::vec::axiom_vec_index_decreases(*fields, i as int);
                    assert(decreases_to!(*ty => (*ty)->Record_fields));
                    assert(decreases_to!(fields@[i as int] => fields@[i as int].1));
                    assert(decreases_to!(fields@[i as int].1 => fields@[i as int].1.ty));
                    assert(fv.take(i + 1).drop_last() =~= fv.take(i as int));
                    assert(fv.take(i + 1).last() == fv[i as int]);
                    lemma_add_all_concat(r0, k8s_fields_refs(fv.take(i as int)), k8s_refs(fv[i as int].1.ty));
                }
                collect_k8s_references(&fields[i].1.ty, refs);
                i = i + 1;
            }
            assert(fv.take(fields.len() as int) =~= fv);
            assert(k8s_refs(ty@) == k8s_fields_refs(fv));
        },
        Type::Union { types, coercion_hint: _ } => {
            let ghost tv = types_view(types@);
            proof {
                lemma_types_view(types@);
                assert(tv.take(0) =~= Seq::<TypeView>::empty());
            }
            let mut i: usize = 0;
            while i < types.len()
                invariant
                    *ty == (Type::Union { types: *types, coercion_hint: ty->Union_coercion_hint }),
                    tv == types_view(types@),
                    tv.len() == types.len(),
                    forall|j: int| 0 <= j < types.len() ==> #[trigger] tv[j] == types@[j]@,
                    i <= types.len(),
                    views(refs@) == add_all(r0, k8s_types_refs(tv.take(i as int))),
                decreases types.len() - i,
            {
                proof {
                    vstd::std_specs::vec::axiom_vec_index_decreases(*types, i as int);
                    assert(decreases_to!(*ty => (*ty)->Union_types));
                    assert(tv.take(i + 1).drop_last() =~= tv.take(i as int));
                    assert(tv.take(i + 1).last() == tv[i as int]);
                    lemma_add_all_concat(r0, k8s_types_refs(tv.take(i as int)), k8s_refs(tv[i as int]));
                }
                collect_k8s_references(&types[i], refs);
                i = i + 1;
            }
            assert(tv.take(types.len() as int) =~= tv);
            assert(k8s_refs(ty@) == k8s_types_refs(tv));
        },
        Type::TaggedUnion { tag_field: _, variants } => {
            let ghost vv = variants_view(variants@);
            proof {
                lemma_variants_view(variants@);
                assert(vv.take(0) =~= Seq::<(Seq<char>, TypeView)>::empty());
            }
            let mut i: usize = 0;
            while i < variants.len()
                invariant
                    *ty == (Type::TaggedUnion { tag_field: ty->TaggedUnion_tag_field, variants: *variants }),
                    vv == variants_view(variants@),
                    vv.len() == variants.len(),
                    forall|j: int| 0 <= j < variants.len() ==> #[trigger] vv[j] == (variants@[j].0@, variants@[j].1@),
                    i <= variants.len(),
                    views(refs@) == add_all(r0, k8s_variants_refs(vv.take(i as int))),
                decreases variants.len() - i,
            {
                proof {
                    vstd::std_specs::vec::axiom_vec_index_decreases(*variants, i as int);
                    assert(decreases_to!(*ty => (*ty)->TaggedUnion_variants));
                    assert(decreases_to!(variants@[i as int] => variants@[i as int].1));
                    assert(vv.take(i + 1).drop_last() =~= vv.take(i as int));
                    assert(vv.take(i + 1).last() == vv[i as int]);
                    lemma_add_all_concat(r0, k8s_variants_refs(vv.take(i as int)), k8s_refs(vv[i as int].1));
                }
                collect_k8s_references(&variants[i].1, refs);
                i = i + 1;
            }
            assert(vv.take(variants.len() as int) =~= vv);
            assert(k8s_refs(ty@) == k8s_variants_refs(vv));
        },
        _ => {
            assert(k8s_refs(ty@) =~= Seq::<Seq<char>>::empty());
            assert(add_all(r0, Seq::<Seq<char>>::empty()) == r0);
        },
    }
}

} // verus!
