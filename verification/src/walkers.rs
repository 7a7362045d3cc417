//! Module naming helpers of the schema walkers: group and version of a
//! module name, import aliases, and import paths between generated modules.

use vstd::prelude::*;
use vstd::string::StringExecFns;
use crate::chars::{str_to_lowercase, unicode_str_lowercase};
use crate::discovery::all_digits;
use crate::import_calculator::{fallback_spec, ImportPathCalculator};
use crate::json::{JsonValue, JsonView};
use crate::types::{
    copy_opt_string, field_position, fields_view, insert_field, lemma_fields_view, lemma_types_view, map_get,
    map_insert, opt_json_view, opt_str_view, types_view, Field, FieldView, Type, TypeView,
};
use crate::text::{
    contains_str,    chars_of, concat, contains, contains_seq, is_prefix, is_suffix, join_range, join_spec,
    lemma_split_nonempty, position, rposition, split_char, split_spec, starts_with, str_eq,
    to_owned_string, views,
};

verus! {

broadcast use vstd::string::group_string_axioms;

// ---------------------------------------------------------------------------
// Specifications
// ---------------------------------------------------------------------------

/// A dotted part that looks like a version: `v` followed by digits only, or
/// holding `alpha` or `beta`.
pub open spec fn walker_version_part(s: Seq<char>) -> bool {
    s.len() >= 1 && s[0] == 'v' && (all_digits(s.skip(1)) || contains_seq(s, "alpha"@) || contains_seq(
        s,
        "beta"@,
    ))
}

/// [`walker_version_part`] as a predicate value.
pub open spec fn walker_version_pred() -> spec_fn(Seq<char>) -> bool {
    |s: Seq<char>| walker_version_part(s)
}

/// Group and version of a module name: the first version-like part is the
/// version and the parts before it the group (the parts after it when it
/// comes first); without one, the last part is the version; a single part
/// is all group.
pub open spec fn walker_module_name_spec(name: Seq<char>) -> (Seq<char>, Seq<char>) {
    let parts = split_spec(name, '.');
    match position(parts, walker_version_pred()) {
        Some(i) => (
            if i > 0 {
                join_spec(parts.take(i), "."@)
            } else {
                join_spec(parts.skip(i + 1), "."@)
            },
            parts[i],
        ),
        None => if parts.len() >= 2 {
            (join_spec(parts.take(parts.len() - 1), "."@), parts.last())
        } else {
            (name, Seq::<char>::empty())
        },
    }
}

/// The last dotted part of a name.
pub open spec fn last_dotted(s: Seq<char>) -> Seq<char> {
    split_spec(s, '.').last()
}

/// A path part that names something: non-empty and not `..`.
pub open spec fn meaningful_pred() -> spec_fn(Seq<char>) -> bool {
    |p: Seq<char>| p.len() > 0 && p != ".."@
}

/// The alias of an imported module: for a relative path, its last
/// meaningful part (`import` when none); otherwise the last dotted part.
pub open spec fn crd_alias_spec(module: Seq<char>) -> Seq<char> {
    if is_prefix("../"@, module) {
        let pieces = split_spec(module, '/');
        match rposition(pieces, meaningful_pred()) {
            Some(i) => pieces[i],
            None => "import"@,
        }
    } else {
        last_dotted(module)
    }
}

/// `s` with every trailing `.ncl` removed.
pub open spec fn trim_ncl(s: Seq<char>) -> Seq<char>
    decreases s.len(),
{
    if is_suffix(".ncl"@, s) && s.len() >= 4 {
        trim_ncl(s.take(s.len() - 4))
    } else {
        s
    }
}

/// The alias of an import path: the last `/`-separated part of the path
/// without its `.ncl` suffixes.
pub open spec fn package_alias_spec(path: Seq<char>) -> Seq<char> {
    split_spec(trim_ncl(path), '/').last()
}

/// The version a Kubernetes definition name lives in.
pub open spec fn k8s_target_version(to_fqn: Seq<char>) -> Seq<char> {
    if contains_seq(to_fqn, ".v1."@) || contains_seq(to_fqn, ".meta.v1."@) {
        "v1"@
    } else if contains_seq(to_fqn, ".v1alpha1."@) {
        "v1alpha1"@
    } else if contains_seq(to_fqn, ".v1alpha3."@) {
        "v1alpha3"@
    } else if contains_seq(to_fqn, ".v1beta1."@) {
        "v1beta1"@
    } else if contains_seq(to_fqn, ".v2."@) {
        "v2"@
    } else if contains_seq(to_fqn, ".runtime."@) || contains_seq(to_fqn, ".pkg."@) {
        "v0"@
    } else {
        "v1"@
    }
}

/// Import path and type name for a dependency of a package version:
/// Kubernetes types by their version, other types as a sibling version of
/// the same group (named by the part before the type), or the same
/// directory.
pub open spec fn package_import_spec(to_fqn: Seq<char>, group: Seq<char>, version: Seq<char>) -> (Seq<char>, Seq<char>) {
    let ty = last_dotted(to_fqn);
    let parts = split_spec(to_fqn, '.');
    if is_prefix("io.k8s."@, to_fqn) {
        (fallback_spec(group, version, "k8s.io"@, k8s_target_version(to_fqn), ty), ty)
    } else if parts.len() >= 2 {
        (fallback_spec(group, version, group, parts[parts.len() - 2], ty), ty)
    } else {
        ("./"@ + ty + ".ncl"@, ty)
    }
}

/// The import path of a Kubernetes definition referenced from a CRD
/// module: meta types from `v1`, core types from the version after
/// `io.k8s.api.core`, other Kubernetes types from their first version-like
/// part (or `v1`); the file is the lower-cased type name.
pub open spec fn crd_k8s_import_spec(from_module: Seq<char>, fqn: Seq<char>) -> Seq<char> {
    let (fg, fv) = walker_module_name_spec(from_module);
    let tl = unicode_str_lowercase(last_dotted(fqn));
    let parts = split_spec(fqn, '.');
    if is_prefix("io.k8s.apimachinery.pkg.apis.meta."@, fqn) {
        fallback_spec(fg, fv, "k8s.io"@, "v1"@, tl)
    } else if is_prefix("io.k8s.api.core."@, fqn) {
        fallback_spec(fg, fv, "k8s.io"@, if parts.len() > 4 { parts[4] } else { "v1"@ }, tl)
    } else if is_prefix("io.k8s."@, fqn) {
        let v = match position(parts, walker_version_pred()) {
            Some(i) => parts[i],
            None => "v1"@,
        };
        fallback_spec(fg, fv, "k8s.io"@, v, tl)
    } else {
        fallback_spec(fg, fv, "unknown"@, "v1"@, tl)
    }
}

/// The import path of another generated module's `mod.ncl`.
pub open spec fn module_import_spec(from_module: Seq<char>, to_module: Seq<char>) -> Seq<char> {
    let (fg, fv) = walker_module_name_spec(from_module);
    let (tg, tv) = walker_module_name_spec(to_module);
    fallback_spec(fg, fv, tg, tv, "mod"@)
}

// ---------------------------------------------------------------------------
// Shared operations
// ---------------------------------------------------------------------------

/// Whether a dotted part looks like a version.
fn is_walker_version(s: &str) -> (r: bool)
    ensures
        r == walker_version_part(s@),
{
    let cs = chars_of(s);
    if cs.len() == 0 || cs[0] != 'v' {
        return false;
    }
    let mut digits = true;
    let mut i: usize = 1;
    while i < cs.len()
        invariant
            cs@ == s@,
            1 <= i <= cs.len(),
            digits == all_digits(cs@.subrange(1, i as int)),
        decreases cs.len() - i,
    {
        let ghost prev = cs@.subrange(1, i as int);
        let ghost next = cs@.subrange(1, i + 1);
        let d = crate::chars::is_digit(cs[i]);
        if !d {
            digits = false;
        }
        proof {
            assert(next =~= prev.push(cs@[i as int]));
            if all_digits(next) {
                assert forall|k: int| 0 <= k < prev.len() implies crate::chars::is_ascii_digit(#[trigger] prev[k]) by {
                    assert(next[k] == prev[k]);
                }
                assert(next[prev.len() as int] == cs@[i as int]);
            }
            if all_digits(prev) && d {
                assert forall|k: int| 0 <= k < next.len() implies crate::chars::is_ascii_digit(#[trigger] next[k]) by {
                    if k < prev.len() {
                        assert(next[k] == prev[k]);
                    }
                }
            }
        }
        i = i + 1;
    }
    assert(cs@.subrange(1, cs.len() as int) =~= s@.skip(1));
    digits || contains(s, "alpha") || contains(s, "beta")
}

/// The position of the first version-like part.
fn position_version(parts: &Vec<String>) -> (r: Option<usize>)
    ensures
        match r {
            Some(i) => position(views(parts@), walker_version_pred()) == Some(i as int),
            None => position(views(parts@), walker_version_pred()) is None,
        },
{
    let ghost ps = views(parts@);
    let ghost pred = walker_version_pred();
    let mut i: usize = 0;
    assert(ps.skip(0) =~= ps);
    while i < parts.len()
        invariant
            ps == views(parts@),
            pred == walker_version_pred(),
            i <= parts.len(),
            position(ps, pred) == match position(ps.skip(i as int), pred) {
                Some(j) => Some(j + i),
                None => None,
            },
        decreases parts.len() - i,
    {
        assert(ps.skip(i as int)[0] == parts@[i as int]@);
        if is_walker_version(parts[i].as_str()) {
            return Some(i);
        }
        assert(ps.skip(i as int).skip(1) =~= ps.skip(i + 1));
        i = i + 1;
    }
    None
}

/// Group and version of a module name.
fn walker_parse_module_name(module_name: &str) -> (r: (String, String))
    ensures
        (r.0@, r.1@) == walker_module_name_spec(module_name@),
{
    let parts = split_char(module_name, '.');
    let ghost ps = views(parts@);
    proof {
        crate::text::lemma_position_range(ps, walker_version_pred());
    }
    match position_version(&parts) {
        Some(i) => {
            let version = parts[i].clone();
            let group = if i > 0 {
                let g = join_range(&parts, 0, i, ".");
                assert(ps.subrange(0, i as int) =~= ps.take(i as int));
                g
            } else {
                let g = join_range(&parts, i + 1, parts.len(), ".");
                assert(ps.subrange(i + 1, ps.len() as int) =~= ps.skip(i + 1));
                g
            };
            (group, version)
        },
        None => {
            let n = parts.len();
            if n >= 2 {
                let version = parts[n - 1].clone();
                let group = join_range(&parts, 0, n - 1, ".");
                assert(ps.subrange(0, n - 1) =~= ps.take(n - 1));
                (group, version)
            } else {
                (to_owned_string(module_name), String::new())
            }
        },
    }
}

/// The last dotted part of a name.
fn last_dotted_part(s: &str) -> (r: String)
    ensures
        r@ == last_dotted(s@),
{
    let parts = split_char(s, '.');
    proof {
        lemma_split_nonempty(s@, '.');
    }
    let r = parts[parts.len() - 1].clone();
    assert(views(parts@).last() == parts@[parts.len() - 1]@);
    r
}

/// The import path between generated modules, through a calculator with no
/// registered modules.
fn layout_path(from_group: &str, from_version: &str, to_group: &str, to_version: &str, to_type: &str) -> (r: String)
    ensures
        r@ == fallback_spec(from_group@, from_version@, to_group@, to_version@, to_type@),
{
    let calc = ImportPathCalculator::new_standalone();
    calc.calculate(from_group, from_version, to_group, to_version, to_type)
}

// ---------------------------------------------------------------------------
// CRD schemas to types
// ---------------------------------------------------------------------------

/// `s` with every leading copy of `p` removed (std `trim_start_matches`).
pub open spec fn trim_all_prefix(s: Seq<char>, p: Seq<char>) -> Seq<char>
    decreases s.len(),
{
    if p.len() > 0 && is_prefix(p, s) {
        trim_all_prefix(s.skip(p.len() as int), p)
    } else {
        s
    }
}

/// The type name of a reference: past the definitions prefix, the text after
/// the last `/`.
pub open spec fn ref_name_spec(r: Seq<char>) -> Seq<char> {
    split_spec(trim_all_prefix(r, "#/definitions/"@), '/').last()
}

/// The module of a reference: for a Kubernetes definition, its dotted name
/// without the last part; another mention of `io.k8s.` has none; a local
/// reference is in the walker's base module.
pub open spec fn ref_module_spec(base: Seq<char>, r: Seq<char>) -> Option<Seq<char>> {
    if contains_seq(r, "io.k8s."@) {
        let full = trim_all_prefix(r, "#/definitions/"@);
        if is_prefix("io.k8s."@, full) {
            let parts = split_spec(full, '.');
            if parts.len() > 1 {
                Some(join_spec(parts.take(parts.len() - 1), "."@))
            } else {
                None
            }
        } else {
            None
        }
    } else {
        Some(base)
    }
}

/// The items of the array member under `key`, when there is one.
pub open spec fn array_member(s: JsonView, key: Seq<char>) -> Option<Seq<JsonView>> {
    match s.get(key) {
        Some(v) => v.as_array(),
        None => None,
    }
}

/// Whether a string item of `items` equals `name`.
pub open spec fn names_contain(items: Seq<JsonView>, name: Seq<char>) -> bool {
    exists|i: int| 0 <= i < items.len() && #[trigger] items[i].as_str() == Some(name)
}

/// The `required` list of an object schema (empty when absent).
pub open spec fn required_items(s: JsonView) -> Seq<JsonView> {
    match array_member(s, "required"@) {
        Some(items) => items,
        None => Seq::empty(),
    }
}

/// Whether the schema allows properties beyond the listed ones: its
/// `additionalProperties` is `true`.
pub open spec fn crd_open(s: JsonView) -> bool {
    match s.get("additionalProperties"@) {
        Some(v) => match v.as_bool() {
            Some(b) => b,
            None => false,
        },
        None => false,
    }
}

/// A member of a schema lies inside it.
pub proof fn lemma_member_decreases(s: JsonView, key: Seq<char>)
    ensures
        match s.get(key) {
            Some(v) => decreases_to!(s => v),
            None => true,
        },
{
    if let JsonView::Object(es) = s {
        crate::json::lemma_entries_get_decreases(es, key);
    }
}

/// The type of a CRD schema and the references met on the way, in order.
pub open spec fn crd_type(base: Seq<char>, s: JsonView) -> (TypeView, Seq<Seq<char>>)
    decreases s,
{
    match s.str_member("$ref"@) {
        Some(r) => (TypeView::Reference { name: ref_name_spec(r), module: ref_module_spec(base, r) }, seq![r]),
        None => match s.str_member("type"@) {
            Some(t) => if t == "string"@ {
                (TypeView::String, Seq::empty())
            } else if t == "number"@ {
                (TypeView::Number, Seq::empty())
            } else if t == "integer"@ {
                (TypeView::Integer, Seq::empty())
            } else if t == "boolean"@ {
                (TypeView::Bool, Seq::empty())
            } else if t == "null"@ {
                (TypeView::Null, Seq::empty())
            } else if t == "array"@ {
                match s.get("items"@) {
                    Some(items) => {
                        proof {
                            lemma_member_decreases(s, "items"@);
                        }
                        let (ty, refs) = crd_type(base, items);
                        (TypeView::Array(Box::new(ty)), refs)
                    },
                    None => (TypeView::Array(Box::new(TypeView::Any)), Seq::empty()),
                }
            } else if t == "object"@ {
                let open = crd_open(s);
                match s.get("properties"@) {
                    Some(pv) => match pv {
                        JsonView::Object(props) => {
                            proof {
                                lemma_member_decreases(s, "properties"@);
                            }
                            let (fields, refs) = crd_props(base, props, required_items(s));
                            (TypeView::Record { fields, open }, refs)
                        },
                        _ => (TypeView::Record { fields: Seq::empty(), open }, Seq::empty()),
                    },
                    None => (TypeView::Record { fields: Seq::empty(), open }, Seq::empty()),
                }
            } else {
                (TypeView::Any, Seq::empty())
            },
            None => match s.get("oneOf"@) {
                Some(JsonView::Array(items)) => {
                    proof {
                        lemma_member_decreases(s, "oneOf"@);
                    }
                    let (types, refs) = crd_list(base, items);
                    (TypeView::Union { types, coercion_hint: None }, refs)
                },
                _ => match s.get("anyOf"@) {
                    Some(JsonView::Array(items)) => {
                        proof {
                            lemma_member_decreases(s, "anyOf"@);
                        }
                        let (types, refs) = crd_list(base, items);
                        (TypeView::Union { types, coercion_hint: None }, refs)
                    },
                    _ => match s.get("allOf"@) {
                        Some(JsonView::Array(items)) => {
                            proof {
                                lemma_member_decreases(s, "allOf"@);
                            }
                            let (types, refs) = crd_list(base, items);
                            if types.len() == 0 {
                                (TypeView::Any, refs)
                            } else {
                                (merge_all_of_spec(types), refs)
                            }
                        },
                        _ => (TypeView::Any, Seq::empty()),
                    },
                },
            },
        },
    }
}

/// The types of a list of schemas, with the references met, in order.
pub open spec fn crd_list(base: Seq<char>, items: Seq<JsonView>) -> (Seq<TypeView>, Seq<Seq<char>>)
    decreases items,
{
    if items.len() == 0 {
        (Seq::empty(), Seq::empty())
    } else {
        proof {
            assert(items.drop_last() =~= items.subrange(0, items.len() - 1));
        }
        let (types, refs) = crd_list(base, items.drop_last());
        let (t, r) = crd_type(base, items.last());
        (types.push(t), refs + r)
    }
}

/// The fields of a list of properties, put one after the other into an
/// ordered map, with the references met, in order.
pub open spec fn crd_props(base: Seq<char>, props: Seq<(Seq<char>, JsonView)>, required: Seq<JsonView>) -> (
    Seq<(Seq<char>, FieldView)>,
    Seq<Seq<char>>,
)
    decreases props,
{
    if props.len() == 0 {
        (Seq::empty(), Seq::empty())
    } else {
        proof {
            assert(props.drop_last() =~= props.subrange(0, props.len() - 1));
            assert(decreases_to!(props => props[props.len() - 1]));
        }
        let (fields, refs) = crd_props(base, props.drop_last(), required);
        let (name, ps) = props.last();
        let (t, r) = crd_type(base, ps);
        let field = FieldView {
            ty: t,
            required: names_contain(required, name),
            description: ps.str_member("description"@),
            default: None,
            validation: None,
            contracts: Seq::empty(),
        };
        (map_insert(fields, name, field), refs + r)
    }
}

/// The first of two options that is present.
pub open spec fn or_else<A>(a: Option<A>, b: Option<A>) -> Option<A> {
    match a {
        Some(x) => Some(x),
        None => b,
    }
}

/// One field merged into the fields gathered so far: a new name is added; a
/// name already present with another type becomes a union of the two types,
/// required only when both are, with the newer description and default
/// preferred.
pub open spec fn merge_field(acc: Seq<(Seq<char>, FieldView)>, name: Seq<char>, f: FieldView) -> Seq<(Seq<char>, FieldView)> {
    match map_get(acc, name) {
        Some(e) => if e.ty != f.ty {
            map_insert(
                acc,
                name,
                FieldView {
                    ty: TypeView::Union { types: seq![e.ty, f.ty], coercion_hint: None },
                    required: e.required && f.required,
                    description: or_else(f.description, e.description),
                    default: or_else(f.default, e.default),
                    validation: None,
                    contracts: Seq::empty(),
                },
            )
        } else {
            acc
        },
        None => map_insert(acc, name, f),
    }
}

/// The fields of a record merged, one after the other, into `acc`.
pub open spec fn merge_fields_into(acc: Seq<(Seq<char>, FieldView)>, fields: Seq<(Seq<char>, FieldView)>) -> Seq<(Seq<char>, FieldView)>
    decreases fields.len(),
{
    if fields.len() == 0 {
        acc
    } else {
        let prev = merge_fields_into(acc, fields.drop_last());
        merge_field(prev, fields.last().0, fields.last().1)
    }
}

/// The fields of all the records among `types`, merged in order, and
/// whether any of them is open.
pub open spec fn merge_records(types: Seq<TypeView>) -> (Seq<(Seq<char>, FieldView)>, bool)
    decreases types.len(),
{
    if types.len() == 0 {
        (Seq::empty(), false)
    } else {
        let (fields, open) = merge_records(types.drop_last());
        match types.last() {
            TypeView::Record { fields: fs, open: o } => (merge_fields_into(fields, fs), open || o),
            _ => (fields, open),
        }
    }
}

/// Whether a type is a record.
pub open spec fn is_record(t: TypeView) -> bool {
    t is Record
}

/// The types that are not records, in order.
pub open spec fn non_records(types: Seq<TypeView>) -> Seq<TypeView> {
    types.filter(|t: TypeView| !is_record(t))
}

/// The types of an `allOf` combined: a single type stands for itself;
/// otherwise the records merge into one record, placed first, and the
/// remaining types follow; a single result stands for itself, several form a
/// union.
pub open spec fn merge_all_of_spec(types: Seq<TypeView>) -> TypeView {
    if types.len() == 1 {
        types[0]
    } else {
        let finals = if exists|i: int| 0 <= i < types.len() && is_record(#[trigger] types[i]) {
            seq![TypeView::Record { fields: merge_records(types).0, open: merge_records(types).1 }] + non_records(
                types,
            )
        } else {
            non_records(types)
        };
        if finals.len() == 1 {
            finals[0]
        } else {
            TypeView::Union { types: finals, coercion_hint: None }
        }
    }
}

/// The references of a type, in order: a reference gives its module and
/// name joined with `.` (its name alone without a module); the search goes
/// into arrays, optionals, map values, record fields, union members, tagged
/// variants and contract bases.
pub open spec fn type_refs(t: TypeView) -> Seq<Seq<char>>
    decreases t,
{
    match t {
        TypeView::Reference { name, module } => match module {
            Some(m) => seq![m + "."@ + name],
            None => seq![name],
        },
        TypeView::Array(inner) => type_refs(*inner),
        TypeView::Optional(inner) => type_refs(*inner),
        TypeView::Mapping { key: _, value } => type_refs(*value),
        TypeView::Record { fields, open: _ } => fields_refs(fields),
        TypeView::Union { types, coercion_hint: _ } => types_refs(types),
        TypeView::TaggedUnion { tag_field: _, variants } => variants_refs(variants),
        TypeView::Contract { base, rules: _ } => type_refs(*base),
        _ => Seq::empty(),
    }
}

/// The references of a list of fields, in order.
pub open spec fn fields_refs(fields: Seq<(Seq<char>, FieldView)>) -> Seq<Seq<char>>
    decreases fields,
{
    if fields.len() == 0 {
        Seq::empty()
    } else {
        proof {
            assert(fields.drop_last() =~= fields.subrange(0, fields.len() - 1));
            assert(decreases_to!(fields => fields[fields.len() - 1]));
        }
        fields_refs(fields.drop_last()) + type_refs(fields.last().1.ty)
    }
}

/// The references of a list of types, in order.
pub open spec fn types_refs(types: Seq<TypeView>) -> Seq<Seq<char>>
    decreases types,
{
    if types.len() == 0 {
        Seq::empty()
    } else {
        proof {
            assert(types.drop_last() =~= types.subrange(0, types.len() - 1));
        }
        types_refs(types.drop_last()) + type_refs(types.last())
    }
}

/// The references of a list of tagged variants, in order.
pub open spec fn variants_refs(variants: Seq<(Seq<char>, TypeView)>) -> Seq<Seq<char>>
    decreases variants,
{
    if variants.len() == 0 {
        Seq::empty()
    } else {
        proof {
            assert(variants.drop_last() =~= variants.subrange(0, variants.len() - 1));
            assert(decreases_to!(variants => variants[variants.len() - 1]));
        }
        variants_refs(variants.drop_last()) + type_refs(variants.last().1)
    }
}

/// `s` with every leading copy of `p` removed.
pub fn trim_start_all(s: &str, p: &str) -> (r: String)
    ensures
        r@ == trim_all_prefix(s@, p@),
{
    let cs = chars_of(s);
    let pc = chars_of(p);
    let mut i: usize = 0;
    assert(s@.skip(0) =~= s@);
    while pc.len() > 0 && crate::text::occurs_at_vec(&cs, &pc, i)
        invariant
            cs@ == s@,
            pc@ == p@,
            i <= cs.len(),
            trim_all_prefix(s@, p@) == trim_all_prefix(s@.skip(i as int), p@),
        decreases cs.len() - i,
    {
        proof {
            assert(s@.skip(i as int).take(p@.len() as int) =~= s@.subrange(i as int, i + p@.len()));
            assert(s@.skip(i as int).skip(p@.len() as int) =~= s@.skip(i + p@.len()));
        }
        i = i + pc.len();
    }
    proof {
        if p@.len() > 0 && is_prefix(p@, s@.skip(i as int)) {
            assert(s@.skip(i as int).take(p@.len() as int) =~= s@.subrange(i as int, i + p@.len()));
        }
    }
    crate::text::string_of_range(&cs, i, cs.len())
}

/// The type name of a reference.
fn ref_name(r: &str) -> (n: String)
    ensures
        n@ == ref_name_spec(r@),
{
    let t = trim_start_all(r, "#/definitions/");
    let parts = split_char(t.as_str(), '/');
    proof {
        lemma_split_nonempty(t@, '/');
        assert(views(parts@).last() == parts@[parts@.len() - 1]@);
    }
    parts[parts.len() - 1].clone()
}

/// The module of a reference met by a walker of base module `base`.
fn ref_module(base: &str, r: &str) -> (m: Option<String>)
    ensures
        opt_str_view(m) == ref_module_spec(base@, r@),
{
    if contains(r, "io.k8s.") {
        let full = trim_start_all(r, "#/definitions/");
        if starts_with(full.as_str(), "io.k8s.") {
            let parts = split_char(full.as_str(), '.');
            if parts.len() > 1 {
                let j = join_range(&parts, 0, parts.len() - 1, ".");
                assert(views(parts@).subrange(0, parts@.len() - 1) =~= views(parts@).take(views(parts@).len() - 1));
                return Some(j);
            }
            return None;
        }
        return None;
    }
    Some(to_owned_string(base))
}

/// Whether a string item of `items` equals `name`.
pub fn names_contain_exec(items: &Vec<JsonValue>, name: &str) -> (r: bool)
    ensures
        r == names_contain(crate::json::json_seq_view(items@), name@),
{
    let ghost iv = crate::json::json_seq_view(items@);
    proof {
        crate::json::lemma_json_seq_view(items@);
    }
    let mut i: usize = 0;
    while i < items.len()
        invariant
            iv == crate::json::json_seq_view(items@),
            iv.len() == items.len(),
            forall|j: int| 0 <= j < items.len() ==> #[trigger] iv[j] == items@[j]@,
            i <= items.len(),
            forall|j: int| 0 <= j < i ==> #[trigger] iv[j].as_str() != Some(name@),
        decreases items.len() - i,
    {
        match items[i].as_str() {
            Some(t) => {
                if str_eq(t, name) {
                    assert(iv[i as int].as_str() == Some(name@));
                    return true;
                }
            },
            None => {},
        }
        i = i + 1;
    }
    false
}

/// Whether the schema allows properties beyond the listed ones.
fn crd_open_exec(schema: &JsonValue) -> (r: bool)
    ensures
        r == crd_open(schema@),
{
    match schema.get("additionalProperties") {
        Some(v) => match v.as_bool() {
            Some(b) => b,
            None => false,
        },
        None => false,
    }
}

/// The elements of two sequences joined are those of either.
pub proof fn lemma_concat_to_set<A>(a: Seq<A>, b: Seq<A>)
    ensures
        (a + b).to_set() == a.to_set() + b.to_set(),
{
    assert forall|x: A| (a + b).to_set().contains(x) <==> (a.to_set() + b.to_set()).contains(x) by {
        if (a + b).contains(x) {
            let i = choose|i: int| 0 <= i < (a + b).len() && (a + b)[i] == x;
            if i < a.len() {
                assert(a[i] == x);
            } else {
                assert(b[i - a.len()] == x);
            }
        }
        if a.contains(x) {
            let i = choose|i: int| 0 <= i < a.len() && a[i] == x;
            assert((a + b)[i] == x);
        }
        if b.contains(x) {
            let i = choose|i: int| 0 <= i < b.len() && b[i] == x;
            assert((a + b)[i + a.len()] == x);
        }
    }
    assert((a + b).to_set() =~= a.to_set() + b.to_set());
}

/// The types of an `allOf` combined into one: the records merge their
/// fields (a field met twice with different types becomes a union),
/// the other types follow, and several results form a union.
pub fn merge_all_of_types(types: Vec<Type>) -> (r: Type)
    ensures
        r@ == merge_all_of_spec(types_view(types@)),
{
    let ghost tv = types_view(types@);
    proof {
        lemma_types_view(types@);
    }
    if types.len() == 1 {
        return types[0].duplicate();
    }
    let mut merged: Vec<(String, Field)> = Vec::new();
    let mut is_open = false;
    let mut any_record = false;
    let mut others: Vec<Type> = Vec::new();
    let mut i: usize = 0;
    proof {
        assert(tv.take(0) =~= Seq::<TypeView>::empty());
        reveal(Seq::filter);
        assert(types_view(others@) =~= non_records(tv.take(0)));
    }
    while i < types.len()
        invariant
            tv == types_view(types@),
            tv.len() == types.len(),
            forall|j: int| 0 <= j < types.len() ==> #[trigger] tv[j] == types@[j]@,
            i <= types.len(),
            fields_view(merged@) == merge_records(tv.take(i as int)).0,
            is_open == merge_records(tv.take(i as int)).1,
            any_record == exists|j: int| 0 <= j < i && is_record(#[trigger] tv[j]),
            types_view(others@) == non_records(tv.take(i as int)),
        decreases types.len() - i,
    {
        let ghost prefix = tv.take(i as int);
        proof {
            assert(tv.take(i + 1).drop_last() =~= prefix);
            assert(tv.take(i + 1).last() == tv[i as int]);
            reveal(Seq::filter);
        }
        match &types[i] {
            Type::Record { fields, open } => {
                let ghost acc0 = fields_view(merged@);
                let ghost fv = fields_view(fields@);
                proof {
                    lemma_fields_view(fields@);
                    assert(fv.take(0) =~= Seq::<(Seq<char>, FieldView)>::empty());
                }
                let mut j: usize = 0;
                while j < fields.len()
                    invariant
                        fv == fields_view(fields@),
                        fv.len() == fields.len(),
                        forall|k: int| 0 <= k < fields.len() ==> #[trigger] fv[k] == (fields@[k].0@, fields@[k].1@),
                        j <= fields.len(),
                        fields_view(merged@) == crate::walkers::merge_fields_into(acc0, fv.take(j as int)),
                    decreases fields.len() - j,
                {
                    proof {
                        assert(fv.take(j + 1).drop_last() =~= fv.take(j as int));
                        assert(fv.take(j + 1).last() == fv[j as int]);
                    }
                    let name = &fields[j].0;
                    let field = &fields[j].1;
                    match field_position(&merged, name.as_str()) {
                        Some(p) => {
                            proof {
                                lemma_fields_view(merged@);
                            }
                            if !merged[p].1.ty.same_as(&field.ty) {
                                let existing = &merged[p].1;
                                let mut both: Vec<Type> = Vec::new();
                                both.push(existing.ty.duplicate());
                                both.push(field.ty.duplicate());
                                proof {
                                    lemma_types_view(both@);
                                    assert(types_view(both@) =~= seq![existing.ty@, field.ty@]);
                                }
                                let description = match &field.description {
                                    Some(d) => Some(d.clone()),
                                    None => copy_opt_string(&existing.description),
                                };
                                let default = match &field.default {
                                    Some(d) => Some(d.duplicate()),
                                    None => match &existing.default {
                                        Some(d) => Some(d.duplicate()),
                                        None => None,
                                    },
                                };
                                let nf = Field {
                                    ty: Type::Union { types: both, coercion_hint: None },
                                    required: existing.required && field.required,
                                    description,
                                    default,
                                    validation: None,
                                    contracts: Vec::new(),
                                };
                                proof {
                                    assert(crate::types::rule_views(nf.contracts@) =~= Seq::<crate::types::ContractRuleView>::empty());
                                }
                                insert_field(&mut merged, name.clone(), nf);
                            }
                        },
                        None => {
                            insert_field(&mut merged, name.clone(), field.duplicate());
                        },
                    }
                    j = j + 1;
                }
                proof {
                    assert(fv.take(fields.len() as int) =~= fv);
                }
                is_open = is_open || *open;
                any_record = true;
            },
            t => {
                let ghost o0 = others@;
                others.push(t.duplicate());
                proof {
                    lemma_types_view(others@);
                    lemma_types_view(o0);
                    assert(types_view(others@) =~= types_view(o0).push(tv[i as int]));
                }
            },
        }
        i = i + 1;
    }
    proof {
        assert(tv.take(types.len() as int) =~= tv);
    }
    let mut finals: Vec<Type> = Vec::new();
    if any_record {
        finals.push(Type::Record { fields: merged, open: is_open });
    }
    let ghost f0 = finals@;
    let ghost o0 = others@;
    finals.append(&mut others);
    proof {
        lemma_types_view(finals@);
        lemma_types_view(f0);
        lemma_types_view(o0);
        assert(types_view(finals@) =~= types_view(f0) + types_view(o0));
        if any_record {
            assert(types_view(f0) =~= seq![TypeView::Record { fields: merge_records(tv).0, open: merge_records(tv).1 }]);
        } else {
            assert(types_view(f0) =~= Seq::<TypeView>::empty());
        }
    }
    if finals.len() == 1 {
        let r = finals.remove(0);
        assert(r@ == types_view(finals@.insert(0, r))[0]) by {
            assert(finals@.insert(0, r) =~= f0 + o0);
        }
        r
    } else {
        Type::Union { types: finals, coercion_hint: None }
    }
}

/// Gather the references of a type into the set `refs` (a reference
/// counts as `module.name`, or its name alone without a module).
pub fn collect_references(ty: &Type, refs: &mut Vec<String>)
    ensures
        views(final(refs)@).to_set() == views(old(refs)@).to_set() + type_refs(ty@).to_set(),
        views(old(refs)@).no_duplicates() ==> views(final(refs)@).no_duplicates(),
    decreases ty,
{
    let ghost r0 = views(refs@);
    match ty {
        Type::Reference { name, module } => {
            let fqn = match module {
                Some(m) => {
                    let mut f = m.clone();
                    f.append(".");
                    f.append(name.as_str());
                    f
                },
                None => name.clone(),
            };
            proof {
                assert(type_refs(ty@) == seq![fqn@]);
            }
            if !contains_str(refs, fqn.as_str()) {
                refs.push(fqn);
                proof {
                    let nv = views(refs@);
                    assert(nv =~= r0.push(fqn@));
                    assert forall|x: Seq<char>| nv.contains(x) <==> (r0.contains(x) || seq![fqn@].contains(x)) by {
                        if nv.contains(x) {
                            let k = choose|k: int| 0 <= k < nv.len() && nv[k] == x;
                            if k < r0.len() {
                                assert(r0[k] == x);
                            } else {
                                assert(seq![fqn@][0] == x);
                            }
                        }
                        if r0.contains(x) {
                            let k = choose|k: int| 0 <= k < r0.len() && r0[k] == x;
                            assert(nv[k] == x);
                        }
                        if seq![fqn@].contains(x) {
                            assert(nv[r0.len() as int] == x);
                        }
                    }
                    assert(views(refs@).to_set() =~= r0.to_set() + type_refs(ty@).to_set());
                    if r0.no_duplicates() {
                        assert forall|a: int, b: int| 0 <= a < b < views(refs@).len() implies views(refs@)[a] != views(refs@)[b] by {
                            if b == r0.len() {
                                assert(views(refs@)[a] == r0[a]);
                            }
                        }
                    }
                }
            } else {
                assert(views(refs@).to_set() =~= r0.to_set() + type_refs(ty@).to_set());
            }
        },
        Type::Array(inner) => collect_references(inner, refs),
        Type::Optional(inner) => collect_references(inner, refs),
        Type::Mapping { key: _, value } => collect_references(value, refs),
        Type::Contract { base, rules: _ } => collect_references(base, refs),
        Type::Record { fields, open: _ } => {
            let ghost fv = fields_view(fields@);
            proof {
                lemma_fields_view(fields@);
                assert(fv.take(0) =~= Seq::<(Seq<char>, FieldView)>::empty());
                assert(views(refs@).to_set() =~= r0.to_set() + fields_refs(fv.take(0)).to_set());
            }
            let mut i: usize = 0;
            while i < fields.len()
                invariant
                    *ty == (Type::Record { fields: *fields, open: ty->Record_open }),
                    fv == fields_view(fields@),
                    fv.len() == fields.len(),
                    forall|j: int| 0 <= j < fields.len() ==> #[trigger] fv[j] == (fields@[j].0@, fields@[j].1@),
                    i <= fields.len(),
                    views(refs@).to_set() == r0.to_set() + fields_refs(fv.take(i as int)).to_set(),
                    r0.no_duplicates() ==> views(refs@).no_duplicates(),
                decreases fields.len() - i,
            {
                proof {
                    vstd::std_specs::vec::axiom_vec_index_decreases(*fields, i as int);
                    assert(decreases_to!(*ty => (*ty)->Record_fields));
                    assert(decreases_to!(fields@[i as int] => fields@[i as int].1));
                    assert(decreases_to!(fields@[i as int].1 => fields@[i as int].1.ty));
                    assert(fv.take(i + 1).drop_last() =~= fv.take(i as int));
                    assert(fv.take(i + 1).last() == fv[i as int]);
                }
                let ghost rb = views(refs@);
                collect_references(&fields[i].1.ty, refs);
                proof {
                    lemma_concat_to_set(fields_refs(fv.take(i as int)), type_refs(fv[i as int].1.ty));
                    assert(views(refs@).to_set() =~= r0.to_set() + fields_refs(fv.take(i + 1)).to_set());
                }
                i = i + 1;
            }
            proof {
                assert(fv.take(fields.len() as int) =~= fv);
            }
        },
        Type::Union { types, coercion_hint: _ } => {
            let ghost tv = types_view(types@);
            proof {
                lemma_types_view(types@);
                assert(tv.take(0) =~= Seq::<TypeView>::empty());
                assert(views(refs@).to_set() =~= r0.to_set() + types_refs(tv.take(0)).to_set());
            }
            let mut i: usize = 0;
            while i < types.len()
                invariant
                    *ty == (Type::Union { types: *types, coercion_hint: ty->Union_coercion_hint }),
                    tv == types_view(types@),
                    tv.len() == types.len(),
                    forall|j: int| 0 <= j < types.len() ==> #[trigger] tv[j] == types@[j]@,
                    i <= types.len(),
                    views(refs@).to_set() == r0.to_set() + types_refs(tv.take(i as int)).to_set(),
                    r0.no_duplicates() ==> views(refs@).no_duplicates(),
                decreases types.len() - i,
            {
                proof {
                    vstd::std_specs::vec::axiom_vec_index_decreases(*types, i as int);
                    assert(decreases_to!(*ty => (*ty)->Union_types));
                    assert(tv.take(i + 1).drop_last() =~= tv.take(i as int));
                    assert(tv.take(i + 1).last() == tv[i as int]);
                }
                collect_references(&types[i], refs);
                proof {
                    lemma_concat_to_set(types_refs(tv.take(i as int)), type_refs(tv[i as int]));
                    assert(views(refs@).to_set() =~= r0.to_set() + types_refs(tv.take(i + 1)).to_set());
                }
                i = i + 1;
            }
            proof {
                assert(tv.take(types.len() as int) =~= tv);
            }
        },
        Type::TaggedUnion { tag_field: _, variants } => {
            let ghost vv = crate::types::variants_view(variants@);
            proof {
                crate::types::lemma_variants_view(variants@);
                assert(vv.take(0) =~= Seq::<(Seq<char>, TypeView)>::empty());
                assert(views(refs@).to_set() =~= r0.to_set() + variants_refs(vv.take(0)).to_set());
            }
            let mut i: usize = 0;
            while i < variants.len()
                invariant
                    *ty == (Type::TaggedUnion { tag_field: ty->TaggedUnion_tag_field, variants: *variants }),
                    vv == crate::types::variants_view(variants@),
                    vv.len() == variants.len(),
                    forall|j: int| 0 <= j < variants.len() ==> #[trigger] vv[j] == (variants@[j].0@, variants@[j].1@),
                    i <= variants.len(),
                    views(refs@).to_set() == r0.to_set() + variants_refs(vv.take(i as int)).to_set(),
                    r0.no_duplicates() ==> views(refs@).no_duplicates(),
                decreases variants.len() - i,
            {
                proof {
                    vstd::std_specs::vec::axiom_vec_index_decreases(*variants, i as int);
                    assert(decreases_to!(*ty => (*ty)->TaggedUnion_variants));
                    assert(decreases_to!(variants@[i as int] => variants@[i as int].1));
                    assert(vv.take(i + 1).drop_last() =~= vv.take(i as int));
                    assert(vv.take(i + 1).last() == vv[i as int]);
                }
                collect_references(&variants[i].1, refs);
                proof {
                    lemma_concat_to_set(variants_refs(vv.take(i as int)), type_refs(vv[i as int].1));
                    assert(views(refs@).to_set() =~= r0.to_set() + variants_refs(vv.take(i + 1)).to_set());
                }
                i = i + 1;
            }
            proof {
                assert(vv.take(variants.len() as int) =~= vv);
            }
        },
        _ => {
            assert(type_refs(ty@) =~= Seq::<Seq<char>>::empty());
            assert(views(refs@).to_set() =~= r0.to_set() + type_refs(ty@).to_set());
        },
    }
}

// ---------------------------------------------------------------------------
// Walkers
// ---------------------------------------------------------------------------

/// Walker of CRD schemas.
pub struct CRDWalker {
    /// Base module name for generated types.
    base_module: String,
}

impl CRDWalker {
    /// The base module name.
    pub closed spec fn base(&self) -> Seq<char> {
        self.base_module@
    }

    /// A walker for the given base module.
    pub fn new(base_module: &str) -> (r: CRDWalker)
        ensures
            r.base() == base_module@,
    {
        CRDWalker { base_module: to_owned_string(base_module) }
    }

    /// Group and version of a module name.
    pub fn parse_module_name(module_name: &str) -> (r: (String, String))
        ensures
            (r.0@, r.1@) == walker_module_name_spec(module_name@),
    {
        walker_parse_module_name(module_name)
    }

    /// The alias of an imported module.
    pub fn generate_alias(&self, module: &str) -> (r: String)
        ensures
            r@ == crd_alias_spec(module@),
    {
        if starts_with(module, "../") {
            let pieces = split_char(module, '/');
            let ghost ps = views(pieces@);
            let ghost pred = meaningful_pred();
            let mut j: usize = pieces.len();
            assert(ps.take(j as int) =~= ps);
            while j > 0
                invariant
                    ps == views(pieces@),
                    ps == split_spec(module@, '/'),
                    is_prefix("../"@, module@),
                    pred == meaningful_pred(),
                    j <= pieces.len(),
                    rposition(ps, pred) == rposition(ps.take(j as int), pred),
                decreases j,
            {
                let p = pieces[j - 1].as_str();
                assert(ps.take(j as int).last() == p@);
                if chars_of(p).len() > 0 && !str_eq(p, "..") {
                    let r = pieces[j - 1].clone();
                    proof {
                        assert(pred(ps.take(j as int).last()));
                        assert(rposition(ps.take(j as int), pred) == Some(j - 1));
                        assert(r@ == ps[j - 1]);
                    }
                    return r;
                }
                assert(ps.take(j as int).drop_last() =~= ps.take(j - 1));
                j = j - 1;
            }
            proof {
                reveal_strlit("import");
            }
            return to_owned_string("import");
        }
        last_dotted_part(module)
    }

    /// The import path of a Kubernetes definition referenced from a module.
    pub fn map_k8s_import_path(&self, from_module: &str, fqn: &str) -> (r: String)
        ensures
            r@ == crd_k8s_import_spec(from_module@, fqn@),
    {
        let (from_group, from_version) = walker_parse_module_name(from_module);
        let last = last_dotted_part(fqn);
        let tl = str_to_lowercase(last.as_str());
        let parts = split_char(fqn, '.');
        let ghost ps = views(parts@);
        if starts_with(fqn, "io.k8s.apimachinery.pkg.apis.meta.") {
            return layout_path(from_group.as_str(), from_version.as_str(), "k8s.io", "v1", tl.as_str());
        }
        if starts_with(fqn, "io.k8s.api.core.") {
            if parts.len() > 4 {
                assert(ps[4] == parts@[4]@);
                return layout_path(from_group.as_str(), from_version.as_str(), "k8s.io", parts[4].as_str(), tl.as_str());
            }
            return layout_path(from_group.as_str(), from_version.as_str(), "k8s.io", "v1", tl.as_str());
        }
        if starts_with(fqn, "io.k8s.") {
            proof {
                crate::text::lemma_position_range(ps, walker_version_pred());
            }
            return match position_version(&parts) {
                Some(i) => layout_path(from_group.as_str(), from_version.as_str(), "k8s.io", parts[i].as_str(), tl.as_str()),
                None => layout_path(from_group.as_str(), from_version.as_str(), "k8s.io", "v1", tl.as_str()),
            };
        }
        layout_path(from_group.as_str(), from_version.as_str(), "unknown", "v1", tl.as_str())
    }

    /// The import path of another module's `mod.ncl`.
    pub fn calculate_import_path(&self, from_module: &str, to_module: &str) -> (r: String)
        ensures
            r@ == module_import_spec(from_module@, to_module@),
    {
        let (fg, fv) = walker_parse_module_name(from_module);
        let (tg, tv) = walker_parse_module_name(to_module);
        layout_path(fg.as_str(), fv.as_str(), tg.as_str(), tv.as_str(), "mod")
    }

    /// The type of a CRD schema; the references met on the way are appended
    /// to `refs`, in order.
    pub fn json_schema_to_type(&self, schema: &JsonValue, refs: &mut Vec<String>) -> (r: Type)
        ensures
            r@ == crd_type(self.base(), schema@).0,
            views(final(refs)@) == views(old(refs)@) + crd_type(self.base(), schema@).1,
        decreases schema, 1nat,
    {
        let ghost base = self.base();
        if let Some(r) = schema.str_member("$ref") {
            let ghost r0 = refs@;
            let name = ref_name(r.as_str());
            let module = ref_module(self.base_module.as_str(), r.as_str());
            refs.push(r);
            assert(views(refs@) =~= views(r0) + seq![refs@.last()@]);
            return Type::Reference { name, module };
        }
        assert(views(refs@) =~= views(refs@) + Seq::<Seq<char>>::empty());
        match schema.str_member("type") {
            Some(t) => {
                let t = t.as_str();
                if str_eq(t, "string") {
                    return Type::String;
                }
                if str_eq(t, "number") {
                    return Type::Number;
                }
                if str_eq(t, "integer") {
                    return Type::Integer;
                }
                if str_eq(t, "boolean") {
                    return Type::Bool;
                }
                if str_eq(t, "null") {
                    return Type::Null;
                }
                if str_eq(t, "array") {
                    return match schema.get("items") {
                        Some(items) => {
                            let ty = self.json_schema_to_type(items, refs);
                            Type::Array(Box::new(ty))
                        },
                        None => {
                            let any = Type::Any;
                            assert(any@ == TypeView::Any);
                            Type::Array(Box::new(any))
                        },
                    };
                }
                if str_eq(t, "object") {
                    let open = crd_open_exec(schema);
                    let required = match schema.get("required") {
                        Some(v) => v.as_array(),
                        None => None,
                    };
                    let mut fields: Vec<(String, Field)> = Vec::new();
                    match schema.get("properties") {
                        Some(pv) => match pv.as_object() {
                            Some(props) => {
                                let ghost pe = crate::json::json_entries_view(props@);
                                let ghost req = crate::walkers::required_items(schema@);
                                let ghost refs0 = refs@;
                                proof {
                                    crate::json::lemma_json_entries_view(props@);
                                    assert(pe.take(0) =~= Seq::<(Seq<char>, JsonView)>::empty());
                                    assert(views(refs@) =~= views(refs0) + Seq::<Seq<char>>::empty());
                                }
                                let mut i: usize = 0;
                                while i < props.len()
                                    invariant
                                        decreases_to!(*schema => *props),
                                        base == self.base(),
                                        pe == crate::json::json_entries_view(props@),
                                        pe.len() == props.len(),
                                        forall|j: int| 0 <= j < props.len() ==> #[trigger] pe[j] == (props@[j].0@, props@[j].1@),
                                        req == crate::walkers::required_items(schema@),
                                        match required {
                                            Some(v) => req == crate::json::json_seq_view(v@),
                                            None => req == Seq::<JsonView>::empty(),
                                        },
                                        i <= props.len(),
                                        fields_view(fields@) == crd_props(base, pe.take(i as int), req).0,
                                        views(refs@) == views(refs0) + crd_props(base, pe.take(i as int), req).1,
                                    decreases props.len() - i,
                                {
                                    proof {
                                        assert(pe.take(i + 1).drop_last() =~= pe.take(i as int));
                                        assert(pe.take(i + 1).last() == pe[i as int]);
                                        vstd::std_specs::vec::axiom_vec_index_decreases(*props, i as int);
                                        assert(decreases_to!(props@[i as int] => props@[i as int].1));
                                    }
                                    let ghost rb = refs@;
                                    let ty = self.json_schema_to_type(&props[i].1, refs);
                                    let name = &props[i].0;
                                    let is_required = match required {
                                        Some(v) => names_contain_exec(v, name.as_str()),
                                        None => false,
                                    };
                                    let description = props[i].1.str_member("description");
                                    let field = Field {
                                        ty,
                                        required: is_required,
                                        description,
                                        default: None,
                                        validation: None,
                                        contracts: Vec::new(),
                                    };
                                    proof {
                                        assert(crate::types::rule_views(field.contracts@) =~= Seq::<crate::types::ContractRuleView>::empty());
                                        assert(views(refs@) =~= views(refs0) + crd_props(base, pe.take(i + 1), req).1);
                                    }
                                    insert_field(&mut fields, name.clone(), field);
                                    i = i + 1;
                                }
                                proof {
                                    assert(pe.take(props.len() as int) =~= pe);
                                }
                            },
                            None => {},
                        },
                        None => {},
                    }
                    proof {
                        lemma_fields_view(fields@);
                    }
                    return Type::Record { fields, open };
                }
                Type::Any
            },
            None => {
                let one_of = match schema.get("oneOf") {
                    Some(v) => v.as_array(),
                    None => None,
                };
                if let Some(items) = one_of {
                    let types = self.schema_list_to_types(items, refs);
                    return Type::Union { types, coercion_hint: None };
                }
                let any_of = match schema.get("anyOf") {
                    Some(v) => v.as_array(),
                    None => None,
                };
                if let Some(items) = any_of {
                    let types = self.schema_list_to_types(items, refs);
                    return Type::Union { types, coercion_hint: None };
                }
                let all_of = match schema.get("allOf") {
                    Some(v) => v.as_array(),
                    None => None,
                };
                if let Some(items) = all_of {
                    let types = self.schema_list_to_types(items, refs);
                    if types.len() == 0 {
                        return Type::Any;
                    }
                    return merge_all_of_types(types);
                }
                Type::Any
            },
        }
    }

    /// The types of a list of CRD schemas, in order; the references met are
    /// appended to `refs`.
    fn schema_list_to_types(&self, items: &Vec<JsonValue>, refs: &mut Vec<String>) -> (r: Vec<Type>)
        ensures
            types_view(r@) == crd_list(self.base(), crate::json::json_seq_view(items@)).0,
            views(final(refs)@) == views(old(refs)@) + crd_list(self.base(), crate::json::json_seq_view(items@)).1,
        decreases items, 0nat,
    {
        let ghost base = self.base();
        let ghost iv = crate::json::json_seq_view(items@);
        let ghost refs0 = refs@;
        proof {
            crate::json::lemma_json_seq_view(items@);
            assert(iv.take(0) =~= Seq::<JsonView>::empty());
            assert(views(refs@) =~= views(refs0) + Seq::<Seq<char>>::empty());
        }
        let mut out: Vec<Type> = Vec::new();
        let mut i: usize = 0;
        while i < items.len()
            invariant
                base == self.base(),
                iv == crate::json::json_seq_view(items@),
                iv.len() == items.len(),
                forall|j: int| 0 <= j < items.len() ==> #[trigger] iv[j] == items@[j]@,
                i <= items.len(),
                types_view(out@) == crd_list(base, iv.take(i as int)).0,
                views(refs@) == views(refs0) + crd_list(base, iv.take(i as int)).1,
            decreases items.len() - i,
        {
            proof {
                assert(iv.take(i + 1).drop_last() =~= iv.take(i as int));
                assert(iv.take(i + 1).last() == iv[i as int]);
                vstd::std_specs::vec::axiom_vec_index_decreases(*items, i as int);
            }
            let ghost o0 = out@;
            let t = self.json_schema_to_type(&items[i], refs);
            out.push(t);
            proof {
                lemma_types_view(out@);
                lemma_types_view(o0);
                assert(types_view(out@) =~= types_view(o0).push(t@));
                assert(views(refs@) =~= views(refs0) + crd_list(base, iv.take(i + 1)).1);
            }
            i = i + 1;
        }
        proof {
            assert(iv.take(items.len() as int) =~= iv);
        }
        out
    }

    /// The types of an `allOf` combined into one (see [`merge_all_of_types`]).
    pub fn merge_all_of_types(&self, types: Vec<Type>) -> (r: Type)
        ensures
            r@ == merge_all_of_spec(types_view(types@)),
    {
        merge_all_of_types(types)
    }

    /// Gather the references of a type into the set `refs` (see
    /// [`collect_references`]).
    pub fn extract_references(&self, ty: &Type, refs: &mut Vec<String>)
        ensures
            views(final(refs)@).to_set() == views(old(refs)@).to_set() + type_refs(ty@).to_set(),
            views(old(refs)@).no_duplicates() ==> views(final(refs)@).no_duplicates(),
    {
        collect_references(ty, refs)
    }

}

/// Walker of OpenAPI schemas.
pub struct OpenAPIWalker {
    /// Base module name for generated types.
    base_module: String,
}

impl OpenAPIWalker {
    /// The base module name.
    pub closed spec fn base(&self) -> Seq<char> {
        self.base_module@
    }

    /// A walker for the given base module.
    pub fn new(base_module: &str) -> (r: OpenAPIWalker)
        ensures
            r.base() == base_module@,
    {
        OpenAPIWalker { base_module: to_owned_string(base_module) }
    }

    /// Group and version of a module name.
    pub fn parse_module_name(module_name: &str) -> (r: (String, String))
        ensures
            (r.0@, r.1@) == walker_module_name_spec(module_name@),
    {
        walker_parse_module_name(module_name)
    }

    /// The alias of an imported module: its last dotted part.
    pub fn generate_alias(&self, module: &str) -> (r: String)
        ensures
            r@ == last_dotted(module@),
    {
        last_dotted_part(module)
    }

    /// The import path of another module's `mod.ncl`.
    pub fn calculate_import_path(&self, from_module: &str, to_module: &str) -> (r: String)
        ensures
            r@ == module_import_spec(from_module@, to_module@),
    {
        let (fg, fv) = walker_parse_module_name(from_module);
        let (tg, tv) = walker_parse_module_name(to_module);
        layout_path(fg.as_str(), fv.as_str(), tg.as_str(), tv.as_str(), "mod")
    }
}

/// Bridges package type storage to the walkers.
pub struct PackageWalkerAdapter;

impl PackageWalkerAdapter {
    /// Import path and type name for a dependency `to_fqn` of a module of
    /// `group`/`version`.
    pub fn calculate_import(from_fqn: &str, to_fqn: &str, group: &str, version: &str) -> (r: (String, String))
        ensures
            (r.0@, r.1@) == package_import_spec(to_fqn@, group@, version@),
    {
        let ty = last_dotted_part(to_fqn);
        if starts_with(to_fqn, "io.k8s.") {
            let target_version = if contains(to_fqn, ".v1.") || contains(to_fqn, ".meta.v1.") {
                "v1"
            } else if contains(to_fqn, ".v1alpha1.") {
                "v1alpha1"
            } else if contains(to_fqn, ".v1alpha3.") {
                "v1alpha3"
            } else if contains(to_fqn, ".v1beta1.") {
                "v1beta1"
            } else if contains(to_fqn, ".v2.") {
                "v2"
            } else if contains(to_fqn, ".runtime.") || contains(to_fqn, ".pkg.") {
                "v0"
            } else {
                "v1"
            };
            let path = layout_path(group, version, "k8s.io", target_version, ty.as_str());
            return (path, ty);
        }
        let parts = split_char(to_fqn, '.');
        let n = parts.len();
        if n >= 2 {
            assert(views(parts@)[n - 2] == parts@[n - 2]@);
            let path = layout_path(group, version, group, parts[n - 2].as_str(), ty.as_str());
            return (path, ty);
        }
        let mut path = concat("./", ty.as_str());
        path.append(".ncl");
        (path, ty)
    }

    /// The alias of an import path.
    pub fn generate_alias(import_path: &str) -> (r: String)
        ensures
            r@ == package_alias_spec(import_path@),
    {
        let cs = chars_of(import_path);
        let mut n: usize = cs.len();
        assert(cs@.take(n as int) =~= import_path@);
        while n >= 4 && cs[n - 4] == '.' && cs[n - 3] == 'n' && cs[n - 2] == 'c' && cs[n - 1] == 'l'
            invariant
                cs@ == import_path@,
                n <= cs.len(),
                trim_ncl(cs@.take(n as int)) == trim_ncl(import_path@),
            decreases n,
        {
            proof {
                reveal_strlit(".ncl");
                let t = cs@.take(n as int);
                assert(t.skip(t.len() - 4) =~= ".ncl"@);
                assert(t.take(t.len() - 4) =~= cs@.take(n - 4));
            }
            n = n - 4;
        }
        proof {
            reveal_strlit(".ncl");
            let t = cs@.take(n as int);
            if is_suffix(".ncl"@, t) && t.len() >= 4 {
                assert(t.skip(t.len() - 4)[0] == '.');
                assert(t[n - 4] == t.skip(t.len() - 4)[0]);
                assert(t.skip(t.len() - 4)[1] == 'n');
                assert(t[n - 3] == t.skip(t.len() - 4)[1]);
                assert(t.skip(t.len() - 4)[2] == 'c');
                assert(t[n - 2] == t.skip(t.len() - 4)[2]);
                assert(t.skip(t.len() - 4)[3] == 'l');
                assert(t[n - 1] == t.skip(t.len() - 4)[3]);
            }
        }
        let trimmed = crate::text::string_of_range(&cs, 0, n);
        assert(cs@.subrange(0, n as int) =~= cs@.take(n as int));
        let pieces = split_char(trimmed.as_str(), '/');
        proof {
            lemma_split_nonempty(trimmed@, '/');
        }
        let r = pieces[pieces.len() - 1].clone();
        assert(views(pieces@).last() == pieces@[pieces.len() - 1]@);
        r
    }
}

// ---------------------------------------------------------------------------
// Dependencies between the types of a package
// ---------------------------------------------------------------------------

/// A reference as found in a type: its name and, if given, its module.
pub type RefInfo = (Seq<char>, Option<Seq<char>>);

/// The references of a type with their modules, in order, searching
/// arrays, optionals, map values, record fields, union members, tagged
/// variants and contract bases.
pub open spec fn ref_infos(t: TypeView) -> Seq<RefInfo>
    decreases t,
{
    match t {
        TypeView::Reference { name, module } => seq![(name, module)],
        TypeView::Array(inner) => ref_infos(*inner),
        TypeView::Optional(inner) => ref_infos(*inner),
        TypeView::Mapping { key: _, value } => ref_infos(*value),
        TypeView::Record { fields, open: _ } => fields_ref_infos(fields),
        TypeView::Union { types, coercion_hint: _ } => types_ref_infos(types),
        TypeView::TaggedUnion { tag_field: _, variants } => variants_ref_infos(variants),
        TypeView::Contract { base, rules: _ } => ref_infos(*base),
        _ => Seq::empty(),
    }
}

/// The references of a list of fields, in order.
pub open spec fn fields_ref_infos(fields: Seq<(Seq<char>, FieldView)>) -> Seq<RefInfo>
    decreases fields,
{
    if fields.len() == 0 {
        Seq::empty()
    } else {
        proof {
            assert(fields.drop_last() =~= fields.subrange(0, fields.len() - 1));
            assert(decreases_to!(fields => fields[fields.len() - 1]));
        }
        fields_ref_infos(fields.drop_last()) + ref_infos(fields.last().1.ty)
    }
}

/// The references of a list of types, in order.
pub open spec fn types_ref_infos(types: Seq<TypeView>) -> Seq<RefInfo>
    decreases types,
{
    if types.len() == 0 {
        Seq::empty()
    } else {
        proof {
            assert(types.drop_last() =~= types.subrange(0, types.len() - 1));
        }
        types_ref_infos(types.drop_last()) + ref_infos(types.last())
    }
}

/// The references of a list of tagged variants, in order.
pub open spec fn variants_ref_infos(variants: Seq<(Seq<char>, TypeView)>) -> Seq<RefInfo>
    decreases variants,
{
    if variants.len() == 0 {
        Seq::empty()
    } else {
        proof {
            assert(variants.drop_last() =~= variants.subrange(0, variants.len() - 1));
            assert(decreases_to!(variants => variants[variants.len() - 1]));
        }
        variants_ref_infos(variants.drop_last()) + ref_infos(variants.last().1)
    }
}

/// The values of collected references.
pub open spec fn ref_info_views(v: Seq<(String, Option<String>)>) -> Seq<RefInfo> {
    v.map_values(|r: (String, Option<String>)| (r.0@, opt_str_view(r.1)))
}

/// Append the references of a type, with their modules, in order.
pub fn collect_reference_infos(ty: &Type, out: &mut Vec<(String, Option<String>)>)
    ensures
        ref_info_views(final(out)@) == ref_info_views(old(out)@) + ref_infos(ty@),
    decreases ty,
{
    let ghost r0 = ref_info_views(out@);
    match ty {
        Type::Reference { name, module } => {
            out.push((name.clone(), copy_opt_string(module)));
            assert(ref_info_views(out@) =~= r0 + ref_infos(ty@));
        },
        Type::Array(inner) => collect_reference_infos(inner, out),
        Type::Optional(inner) => collect_reference_infos(inner, out),
        Type::Mapping { key: _, value } => collect_reference_infos(value, out),
        Type::Contract { base, rules: _ } => collect_reference_infos(base, out),
        Type::Record { fields, open: _ } => {
            let ghost fv = fields_view(fields@);
            proof {
                lemma_fields_view(fields@);
                assert(fv.take(0) =~= Seq::<(Seq<char>, FieldView)>::empty());
                assert(ref_info_views(out@) =~= r0 + fields_ref_infos(fv.take(0)));
            }
            let mut i: usize = 0;
            while i < fields.len()
                invariant
                    *ty == (Type::Record { fields: *fields, open: ty->Record_open }),
                    fv == fields_view(fields@),
                    fv.len() == fields.len(),
                    forall|j: int| 0 <= j < fields.len() ==> #[trigger] fv[j] == (fields@[j].0@, fields@[j].1@),
                    i <= fields.len(),
                    ref_info_views(out@) == r0 + fields_ref_infos(fv.take(i as int)),
                decreases fields.len() - i,
            {
                proof {
                    vstd::std_specs::vec::axiom_vec_index_decreases(*fields, i as int);
                    assert(decreases_to!(*ty => (*ty)->Record_fields));
                    assert(decreases_to!(fields@[i as int] => fields@[i as int].1));
                    assert(decreases_to!(fields@[i as int].1 => fields@[i as int].1.ty));
                    assert(fv.take(i + 1).drop_last() =~= fv.take(i as int));
                    assert(fv.take(i + 1).last() == fv[i as int]);
                }
                collect_reference_infos(&fields[i].1.ty, out);
                proof {
                    assert(ref_info_views(out@) =~= r0 + fields_ref_infos(fv.take(i + 1)));
                }
                i = i + 1;
            }
            proof {
                assert(fv.take(fields.len() as int) =~= fv);
            }
        },
        Type::Union { types, coercion_hint: _ } => {
            let ghost tv = types_view(types@);
            proof {
                lemma_types_view(types@);
                assert(tv.take(0) =~= Seq::<TypeView>::empty());
                assert(ref_info_views(out@) =~= r0 + types_ref_infos(tv.take(0)));
            }
            let mut i: usize = 0;
            while i < types.len()
                invariant
                    *ty == (Type::Union { types: *types, coercion_hint: ty->Union_coercion_hint }),
                    tv == types_view(types@),
                    tv.len() == types.len(),
                    forall|j: int| 0 <= j < types.len() ==> #[trigger] tv[j] == types@[j]@,
                    i <= types.len(),
                    ref_info_views(out@) == r0 + types_ref_infos(tv.take(i as int)),
                decreases types.len() - i,
            {
                proof {
                    vstd::std_specs::vec::axiom_vec_index_decreases(*types, i as int);
                    assert(decreases_to!(*ty => (*ty)->Union_types));
                    assert(tv.take(i + 1).drop_last() =~= tv.take(i as int));
                    assert(tv.take(i + 1).last() == tv[i as int]);
                }
                collect_reference_infos(&types[i], out);
                proof {
                    assert(ref_info_views(out@) =~= r0 + types_ref_infos(tv.take(i + 1)));
                }
                i = i + 1;
            }
            proof {
                assert(tv.take(types.len() as int) =~= tv);
            }
        },
        Type::TaggedUnion { tag_field: _, variants } => {
            let ghost vv = crate::types::variants_view(variants@);
            proof {
                crate::types::lemma_variants_view(variants@);
                assert(vv.take(0) =~= Seq::<(Seq<char>, TypeView)>::empty());
                assert(ref_info_views(out@) =~= r0 + variants_ref_infos(vv.take(0)));
            }
            let mut i: usize = 0;
            while i < variants.len()
                invariant
                    *ty == (Type::TaggedUnion { tag_field: ty->TaggedUnion_tag_field, variants: *variants }),
                    vv == crate::types::variants_view(variants@),
                    vv.len() == variants.len(),
                    forall|j: int| 0 <= j < variants.len() ==> #[trigger] vv[j] == (variants@[j].0@, variants@[j].1@),
                    i <= variants.len(),
                    ref_info_views(out@) == r0 + variants_ref_infos(vv.take(i as int)),
                decreases variants.len() - i,
            {
                proof {
                    vstd::std_specs::vec::axiom_vec_index_decreases(*variants, i as int);
                    assert(decreases_to!(*ty => (*ty)->TaggedUnion_variants));
                    assert(decreases_to!(variants@[i as int] => variants@[i as int].1));
                    assert(vv.take(i + 1).drop_last() =~= vv.take(i as int));
                    assert(vv.take(i + 1).last() == vv[i as int]);
                }
                collect_reference_infos(&variants[i].1, out);
                proof {
                    assert(ref_info_views(out@) =~= r0 + variants_ref_infos(vv.take(i + 1)));
                }
                i = i + 1;
            }
            proof {
                assert(vv.take(variants.len() as int) =~= vv);
            }
        },
        _ => {
            assert(ref_info_views(out@) =~= r0 + ref_infos(ty@));
        },
    }
}

/// The part of a dotted name before its last dot; empty without a dot
/// (std `rsplit_once('.')`).
pub open spec fn dotted_module(s: Seq<char>) -> Seq<char> {
    let parts = split_spec(s, '.');
    if parts.len() >= 2 {
        join_spec(parts.take(parts.len() - 1), "."@)
    } else {
        Seq::empty()
    }
}

/// The qualified name a reference found in the type `fqn` points to: a
/// module that already ends with the lower-cased name stands for it (lower
/// case); otherwise the module, or the referring type's own module, with the
/// lower-cased name appended.
pub open spec fn dependency_target(fqn: Seq<char>, r: RefInfo) -> Seq<char> {
    let name = unicode_str_lowercase(r.0);
    match r.1 {
        Some(m) => if is_suffix("."@ + name, unicode_str_lowercase(m)) {
            unicode_str_lowercase(m)
        } else {
            m + "."@ + name
        },
        None => dotted_module(fqn) + "."@ + name,
    }
}

/// A dependency is kept when its target is a registered type, a Kubernetes
/// type, or lies in the referring type's own module.
pub open spec fn keeps_dependency(keys: Seq<Seq<char>>, fqn: Seq<char>, dep: Seq<char>) -> bool {
    ||| keys.contains(dep)
    ||| is_prefix("k8s.io."@, dep)
    ||| is_prefix("io.k8s."@, dep)
    ||| dotted_module(fqn) == dotted_module(dep)
}

/// The dependencies of the type `fqn` from its references, in order.
pub open spec fn ref_dependencies(keys: Seq<Seq<char>>, fqn: Seq<char>, refs: Seq<RefInfo>) -> Seq<(Seq<char>, Seq<char>)>
    decreases refs.len(),
{
    if refs.len() == 0 {
        Seq::empty()
    } else {
        let prev = ref_dependencies(keys, fqn, refs.drop_last());
        let dep = dependency_target(fqn, refs.last());
        if keeps_dependency(keys, fqn, dep) {
            prev.push((fqn, dep))
        } else {
            prev
        }
    }
}

/// The dependencies of the registered types, type by type in registry
/// order.
pub open spec fn registry_dependencies(reg: Seq<(Seq<char>, TypeView)>, k: int) -> Seq<(Seq<char>, Seq<char>)>
    decreases k,
{
    if k <= 0 {
        Seq::empty()
    } else {
        registry_dependencies(reg, k - 1) + ref_dependencies(
            reg.map_values(|e: (Seq<char>, TypeView)| e.0),
            reg[k - 1].0,
            ref_infos(reg[k - 1].1),
        )
    }
}

/// The qualified names and types of registered type definitions.
pub open spec fn registry_view(types: Seq<(String, crate::ir::TypeDefinition)>) -> Seq<(Seq<char>, TypeView)> {
    types.map_values(|e: (String, crate::ir::TypeDefinition)| (e.0@, e.1.ty@))
}

/// The part of a dotted name before its last dot.
fn dotted_module_of(s: &str) -> (r: String)
    ensures
        r@ == dotted_module(s@),
{
    let parts = split_char(s, '.');
    if parts.len() >= 2 {
        join_range(&parts, 0, parts.len() - 1, ".")
    } else {
        proof {
            assert(views(parts@).subrange(0, views(parts@).len() as int) =~= views(parts@));
        }
        String::new()
    }
}

impl PackageWalkerAdapter {
    /// The qualified name a reference found in the type `fqn` points to.
    pub fn dependency_target(fqn: &str, name: &str, module: &Option<String>) -> (r: String)
        ensures
            r@ == dependency_target(fqn@, (name@, opt_str_view(*module))),
    {
        let lower_name = str_to_lowercase(name);
        match module {
            Some(m) => {
                let lower_module = str_to_lowercase(m.as_str());
                let suffix = concat(".", lower_name.as_str());
                if crate::text::ends_with(lower_module.as_str(), suffix.as_str()) {
                    lower_module
                } else {
                    let r = concat(m.as_str(), ".");
                    concat(r.as_str(), lower_name.as_str())
                }
            },
            None => {
                let own = dotted_module_of(fqn);
                let r = concat(own.as_str(), ".");
                concat(r.as_str(), lower_name.as_str())
            },
        }
    }

    /// The dependency graph of the registered types (qualified name and
    /// definition, in registry order), as its edges in the order they are
    /// found: for each type, each reference whose target is registered, a
    /// Kubernetes type, or in the same module.
    pub fn build_dependencies(types: &Vec<(String, crate::ir::TypeDefinition)>) -> (r: Vec<(String, String)>)
        ensures
            crate::fingerprint::pair_views(r@) == registry_dependencies(registry_view(types@), types@.len() as int),
    {
        let ghost reg = registry_view(types@);
        let mut keys: Vec<String> = Vec::new();
        let mut k: usize = 0;
        while k < types.len()
            invariant
                k <= types.len(),
                views(keys@) == reg.map_values(|e: (Seq<char>, TypeView)| e.0).take(k as int),
                reg == registry_view(types@),
            decreases types.len() - k,
        {
            let ghost k0 = keys@;
            keys.push(types[k].0.clone());
            assert(views(keys@) =~= views(k0).push(types@[k as int].0@));
            assert(reg.map_values(|e: (Seq<char>, TypeView)| e.0).take(k + 1) =~= reg.map_values(
                |e: (Seq<char>, TypeView)| e.0,
            ).take(k as int).push(types@[k as int].0@));
            k = k + 1;
        }
        let ghost kv = reg.map_values(|e: (Seq<char>, TypeView)| e.0);
        assert(kv.take(k as int) =~= kv);
        let mut edges: Vec<(String, String)> = Vec::new();
        let mut i: usize = 0;
        while i < types.len()
            invariant
                i <= types.len(),
                reg == registry_view(types@),
                kv == reg.map_values(|e: (Seq<char>, TypeView)| e.0),
                views(keys@) == kv,
                crate::fingerprint::pair_views(edges@) == registry_dependencies(reg, i as int),
            decreases types.len() - i,
        {
            let fqn = &types[i].0;
            let mut refs: Vec<(String, Option<String>)> = Vec::new();
            collect_reference_infos(&types[i].1.ty, &mut refs);
            assert(ref_info_views(refs@) =~= ref_infos(reg[i as int].1));
            let ghost rv = ref_info_views(refs@);
            let ghost e0 = crate::fingerprint::pair_views(edges@);
            let mut j: usize = 0;
            while j < refs.len()
                invariant
                    j <= refs.len(),
                    rv == ref_info_views(refs@),
                    views(keys@) == kv,
                    fqn@ == reg[i as int].0,
                    crate::fingerprint::pair_views(edges@) == e0 + ref_dependencies(kv, fqn@, rv.take(j as int)),
                decreases refs.len() - j,
            {
                assert(rv.take(j + 1).drop_last() =~= rv.take(j as int));
                assert(rv.take(j + 1).last() == rv[j as int]);
                let dep = Self::dependency_target(fqn.as_str(), refs[j].0.as_str(), &refs[j].1);
                let own = dotted_module_of(fqn.as_str());
                let dep_module = dotted_module_of(dep.as_str());
                if contains_str(&keys, dep.as_str()) || starts_with(dep.as_str(), "k8s.io.") || starts_with(
                    dep.as_str(),
                    "io.k8s.",
                ) || str_eq(own.as_str(), dep_module.as_str()) {
                    let ghost before = crate::fingerprint::pair_views(edges@);
                    edges.push((fqn.clone(), dep));
                    assert(crate::fingerprint::pair_views(edges@) =~= before.push((fqn@, dependency_target(fqn@, rv[j as int]))));
                }
                j = j + 1;
            }
            assert(rv.take(j as int) =~= rv);
            i = i + 1;
        }
        edges
    }
}

// ---------------------------------------------------------------------------
// Laws of the CRD walker
// ---------------------------------------------------------------------------

/// A list of schemas converts member by member: the types are the
/// members' types in order, the references those of the members one after
/// another.
proof fn lemma_crd_list_members(base: Seq<char>, items: Seq<JsonView>)
    ensures
        crd_list(base, items).0 == Seq::new(items.len(), |i: int| crd_type(base, items[i]).0),
        crd_list(base, items).1 == Seq::new(items.len(), |i: int| crd_type(base, items[i]).1).flatten_alt(),
    decreases items.len(),
{
    if items.len() > 0 {
        let init = items.drop_last();
        lemma_crd_list_members(base, init);
        let rs = Seq::new(items.len(), |i: int| crd_type(base, items[i]).1);
        let rs0 = Seq::new(init.len(), |i: int| crd_type(base, init[i]).1);
        assert(rs.drop_last() =~= rs0);
        assert(crd_list(base, items).0 =~= Seq::new(items.len(), |i: int| crd_type(base, items[i]).0));
    } else {
        assert(crd_list(base, items).0 =~= Seq::new(items.len(), |i: int| crd_type(base, items[i]).0));
    }
}

/// A CRD schema with no `$ref`, no `type` and no `oneOf` list, whose
/// `anyOf` is a list, becomes the union of its members' types, in order,
/// with no coercion hint; the references met are those of the members, one
/// after another.
pub proof fn law_crd_any_of_is_union_of_members(base: Seq<char>, s: JsonView, items: Seq<JsonView>)
    requires
        s.str_member("$ref"@) is None,
        s.str_member("type"@) is None,
        !(s.get("oneOf"@) matches Some(JsonView::Array(_))),
        s.get("anyOf"@) == Some(JsonView::Array(items)),
    ensures
        crd_type(base, s).0 == (TypeView::Union {
            types: Seq::new(items.len(), |i: int| crd_type(base, items[i]).0),
            coercion_hint: None,
        }),
        crd_type(base, s).1 == Seq::new(items.len(), |i: int| crd_type(base, items[i]).1).flatten(),
{
    lemma_crd_list_members(base, items);
    Seq::new(items.len(), |i: int| crd_type(base, items[i]).1).lemma_flatten_and_flatten_alt_are_equivalent();
}

/// A CRD schema with no `$ref` and no `type` whose `oneOf` is a list
/// becomes the union of its members' types, in order, with no coercion
/// hint; the references met are those of the members, one after another.
pub proof fn law_crd_one_of_is_union_of_members(base: Seq<char>, s: JsonView, items: Seq<JsonView>)
    requires
        s.str_member("$ref"@) is None,
        s.str_member("type"@) is None,
        s.get("oneOf"@) == Some(JsonView::Array(items)),
    ensures
        crd_type(base, s).0 == (TypeView::Union {
            types: Seq::new(items.len(), |i: int| crd_type(base, items[i]).0),
            coercion_hint: None,
        }),
        crd_type(base, s).1 == Seq::new(items.len(), |i: int| crd_type(base, items[i]).1).flatten(),
{
    lemma_crd_list_members(base, items);
    Seq::new(items.len(), |i: int| crd_type(base, items[i]).1).lemma_flatten_and_flatten_alt_are_equivalent();
}

/// A CRD schema of `type` `array` with `items` (and no `$ref`) becomes an
/// array of the items' type, with the items' references.
pub proof fn law_crd_array_of_items(base: Seq<char>, s: JsonView, items: JsonView)
    requires
        s.str_member("$ref"@) is None,
        s.str_member("type"@) == Some("array"@),
        s.get("items"@) == Some(items),
    ensures
        crd_type(base, s) == (TypeView::Array(Box::new(crd_type(base, items).0)), crd_type(base, items).1),
{
    lemma_type_keywords_differ();
}

/// The scalar `type`s of a CRD schema (without `$ref`) give the matching
/// scalar types, with no references.
pub proof fn law_crd_scalar_types(base: Seq<char>, s: JsonView)
    requires
        s.str_member("$ref"@) is None,
    ensures
        s.str_member("type"@) == Some("string"@) ==> crd_type(base, s) == (TypeView::String, Seq::<Seq<char>>::empty()),
        s.str_member("type"@) == Some("integer"@) ==> crd_type(base, s) == (TypeView::Integer, Seq::<Seq<char>>::empty()),
        s.str_member("type"@) == Some("number"@) ==> crd_type(base, s) == (TypeView::Number, Seq::<Seq<char>>::empty()),
        s.str_member("type"@) == Some("boolean"@) ==> crd_type(base, s) == (TypeView::Bool, Seq::<Seq<char>>::empty()),
{
    lemma_type_keywords_differ();
}

/// The `type` keywords are different words.
proof fn lemma_type_keywords_differ()
    ensures
        "array"@ != "string"@,
        "array"@ != "number"@,
        "array"@ != "integer"@,
        "array"@ != "boolean"@,
        "array"@ != "null"@,
        "integer"@ != "string"@,
        "integer"@ != "number"@,
        "number"@ != "string"@,
        "boolean"@ != "string"@,
        "boolean"@ != "number"@,
        "boolean"@ != "integer"@,
{
    reveal_strlit("array");
    reveal_strlit("string");
    reveal_strlit("number");
    reveal_strlit("integer");
    reveal_strlit("boolean");
    reveal_strlit("null");
    assert("array"@[0] != "string"@[0]);
    assert("array"@[0] != "number"@[0]);
    assert("array"@[0] != "integer"@[0]);
    assert("array"@[0] != "boolean"@[0]);
    assert("array"@[0] != "null"@[0]);
    assert("integer"@[0] != "string"@[0]);
    assert("integer"@[0] != "number"@[0]);
    assert("number"@[0] != "string"@[0]);
    assert("boolean"@[0] != "string"@[0]);
    assert("boolean"@[0] != "number"@[0]);
    assert("boolean"@[0] != "integer"@[0]);
}

} // verus!
