//! OpenAPI schemas as the converters read them, and their conversion to
//! types: by the schema walker (references kept, `allOf` merged) and by the
//! parser (references dropped, validation rules attached).

use vstd::prelude::*;
use vstd::string::StringExecFns;
use crate::types::{
    fields_view, insert_field, lemma_fields_view, lemma_types_view, map_insert, opt_str_view, rule_views,
    types_view, ContractRuleView, Field, FieldView, Type, TypeView,
};
use crate::text::{contains_str, split_char, split_spec, views};
use crate::walkers::{merge_all_of_spec, merge_all_of_types, OpenAPIWalker};
use crate::error::ParserError;
use crate::ir::{IRBuilder, IR, Module};
use crate::json::{json_seq_view, JsonValue, JsonView};
use crate::text::{decimal_i64, decimal_int_spec, to_owned_string};
use crate::types::{empty_rules, opt_rules_view, RulesView, ValidationRules};
use crate::validation::OpenAPIParser;

verus! {

broadcast use vstd::string::group_string_axioms;

/// A schema, or a reference to one.
#[derive(Debug)]
pub enum SchemaRef {
    Item(Box<Schema>),
    Reference(String),
}

/// An OpenAPI schema: its description and what kind of value it describes.
#[derive(Debug)]
pub struct Schema {
    pub description: Option<String>,
    pub kind: SchemaKind,
}

/// What a schema describes.
#[derive(Debug)]
pub enum SchemaKind {
    String(StringType),
    Number(NumberType),
    Integer(IntegerType),
    Object(ObjectType),
    Array(ArrayType),
    Boolean,
    OneOf(Vec<SchemaRef>),
    AllOf(Vec<SchemaRef>),
    AnyOf(Vec<SchemaRef>),
    Not(Box<SchemaRef>),
    Any,
}

/// The constraints of a string schema.
#[derive(Debug)]
pub struct StringType {
    pub min_length: Option<usize>,
    pub max_length: Option<usize>,
    pub pattern: Option<String>,
    pub enumeration: Vec<Option<String>>,
}

/// The constraints of a number schema; bounds keep their decimal text.
#[derive(Debug)]
pub struct NumberType {
    pub minimum: Option<String>,
    pub maximum: Option<String>,
    pub exclusive_minimum: bool,
    pub exclusive_maximum: bool,
}

/// The constraints of an integer schema.
#[derive(Debug)]
pub struct IntegerType {
    pub minimum: Option<i64>,
    pub maximum: Option<i64>,
    pub exclusive_minimum: bool,
    pub exclusive_maximum: bool,
    pub enumeration: Vec<Option<i64>>,
}

/// An array schema.
#[derive(Debug)]
pub struct ArrayType {
    pub items: Option<SchemaRef>,
    pub min_items: Option<usize>,
    pub max_items: Option<usize>,
    pub unique_items: bool,
}

/// An object schema: its properties in order, the required names, and
/// what it says of further properties.
#[derive(Debug)]
pub struct ObjectType {
    pub properties: Vec<(String, SchemaRef)>,
    pub required: Vec<String>,
    pub additional_properties: Option<AdditionalProperties>,
}

/// What an object schema says of properties beyond its own.
#[derive(Debug)]
pub enum AdditionalProperties {
    Any(bool),
    Schema(Box<SchemaRef>),
}

/// The type name of a reference: the text after its last `/`.
pub open spec fn ref_tail(r: Seq<char>) -> Seq<char> {
    split_spec(r, '/').last()
}

/// A reference to a type of the same module.
pub open spec fn local_ref(r: Seq<char>) -> TypeView {
    TypeView::Reference { name: ref_tail(r), module: None }
}

// ---------------------------------------------------------------------------
// The walker's conversion
// ---------------------------------------------------------------------------

/// The type of a schema as the walker sees it, with the references met, in
/// order.
pub open spec fn walk_schema(s: Schema) -> (TypeView, Seq<Seq<char>>)
    decreases s,
{
    match s.kind {
        SchemaKind::String(_) => (TypeView::String, Seq::empty()),
        SchemaKind::Number(_) => (TypeView::Number, Seq::empty()),
        SchemaKind::Integer(_) => (TypeView::Integer, Seq::empty()),
        SchemaKind::Boolean => (TypeView::Bool, Seq::empty()),
        SchemaKind::Array(a) => match a.items {
            Some(r) => {
                let (t, refs) = walk_ref(r);
                (TypeView::Array(Box::new(t)), refs)
            },
            None => (TypeView::Array(Box::new(TypeView::Any)), Seq::empty()),
        },
        SchemaKind::Object(o) => {
            let (fields, refs) = walk_props(o.properties@, views(o.required@));
            (TypeView::Record { fields, open: o.additional_properties is Some }, refs)
        },
        SchemaKind::OneOf(v) => {
            let (types, refs) = walk_list(v@);
            (TypeView::Union { types, coercion_hint: None }, refs)
        },
        SchemaKind::AllOf(v) => {
            let (types, refs) = walk_list(v@);
            if types.len() == 0 {
                (TypeView::Any, refs)
            } else {
                (merge_all_of_spec(types), refs)
            }
        },
        SchemaKind::AnyOf(v) => {
            let (types, refs) = walk_list(v@);
            (TypeView::Union { types, coercion_hint: None }, refs)
        },
        SchemaKind::Not(_) => (TypeView::Any, Seq::empty()),
        SchemaKind::Any => (TypeView::Any, Seq::empty()),
    }
}

/// The type of a schema or reference as the walker sees it.
pub open spec fn walk_ref(r: SchemaRef) -> (TypeView, Seq<Seq<char>>)
    decreases r,
{
    match r {
        SchemaRef::Item(b) => walk_schema(*b),
        SchemaRef::Reference(x) => (local_ref(x@), seq![x@]),
    }
}

/// The types of a list of schemas as the walker sees them.
pub open spec fn walk_list(v: Seq<SchemaRef>) -> (Seq<TypeView>, Seq<Seq<char>>)
    decreases v,
{
    if v.len() == 0 {
        (Seq::empty(), Seq::empty())
    } else {
        proof {
            assert(v.drop_last() =~= v.subrange(0, v.len() - 1));
        }
        let (types, refs) = walk_list(v.drop_last());
        let (t, r) = walk_ref(v.last());
        (types.push(t), refs + r)
    }
}

/// The fields of a list of properties as the walker sees them, put one
/// after the other into an ordered map.
pub open spec fn walk_props(props: Seq<(String, SchemaRef)>, required: Seq<Seq<char>>) -> (
    Seq<(Seq<char>, FieldView)>,
    Seq<Seq<char>>,
)
    decreases props,
{
    if props.len() == 0 {
        (Seq::empty(), Seq::empty())
    } else {
        proof {
            assert(props.drop_last() =~= props.subrange(0, props.len() - 1));
            assert(decreases_to!(props => props[props.len() - 1]));
        }
        let (fields, refs) = walk_props(props.drop_last(), required);
        let (name, prop) = props.last();
        let (t, r) = walk_ref(prop);
        let description = match prop {
            SchemaRef::Item(b) => opt_str_view(b.description),
            SchemaRef::Reference(_) => None,
        };
        let field = FieldView {
            ty: t,
            required: required.contains(name@),
            description,
            default: None,
            validation: None,
            contracts: Seq::empty(),
        };
        (map_insert(fields, name@, field), refs + r)
    }
}

/// The type name of a reference.
fn reference_tail(r: &str) -> (n: String)
    ensures
        n@ == ref_tail(r@),
{
    let parts = split_char(r, '/');
    proof {
        crate::text::lemma_split_nonempty(r@, '/');
        assert(views(parts@).last() == parts@[parts@.len() - 1]@);
    }
    parts[parts.len() - 1].clone()
}

impl OpenAPIWalker {
    /// The type of a schema; the references met on the way are appended to
    /// `refs`, in order.
    pub fn schema_to_type(&self, schema: &Schema, refs: &mut Vec<String>) -> (r: Type)
        ensures
            r@ == walk_schema(*schema).0,
            views(final(refs)@) == views(old(refs)@) + walk_schema(*schema).1,
        decreases schema, 2nat,
    {
        match &schema.kind {
            SchemaKind::String(_) => Type::String,
            SchemaKind::Number(_) => Type::Number,
            SchemaKind::Integer(_) => Type::Integer,
            SchemaKind::Boolean => Type::Bool,
            SchemaKind::Array(a) => {
                match &a.items {
                    Some(r) => {
                        let t = self.ref_to_type(r, refs);
                        Type::Array(Box::new(t))
                    },
                    None => {
                        let any = Type::Any;
                        assert(any@ == TypeView::Any);
                        assert(views(refs@) =~= views(refs@) + Seq::<Seq<char>>::empty());
                        Type::Array(Box::new(any))
                    },
                }
            },
            SchemaKind::Object(o) => {
                let ghost pv = o.properties@;
                let ghost req = views(o.required@);
                let ghost refs0 = views(refs@);
                let mut fields: Vec<(String, Field)> = Vec::new();
                proof {
                    assert(pv.take(0) =~= Seq::<(String, SchemaRef)>::empty());
                    assert(views(refs@) =~= refs0 + Seq::<Seq<char>>::empty());
                }
                let mut i: usize = 0;
                while i < o.properties.len()
                    invariant
                        schema.kind == SchemaKind::Object(*o),
                        pv == o.properties@,
                        req == views(o.required@),
                        i <= o.properties.len(),
                        fields_view(fields@) == walk_props(pv.take(i as int), req).0,
                        views(refs@) == refs0 + walk_props(pv.take(i as int), req).1,
                    decreases o.properties.len() - i,
                {
                    proof {
                        assert(pv.take(i + 1).drop_last() =~= pv.take(i as int));
                        assert(pv.take(i + 1).last() == pv[i as int]);
                        vstd::std_specs::vec::axiom_vec_index_decreases(o.properties, i as int);
                        assert(decreases_to!(*schema => schema.kind));
                        assert(decreases_to!(schema.kind => (schema.kind)->Object_0));
                        assert(decreases_to!(pv[i as int] => pv[i as int].1));
                    }
                    let name = &o.properties[i].0;
                    let prop = &o.properties[i].1;
                    let t = self.ref_to_type(prop, refs);
                    let description = match prop {
                        SchemaRef::Item(b) => crate::types::copy_opt_string(&b.description),
                        SchemaRef::Reference(_) => None,
                    };
                    let required = contains_str(&o.required, name.as_str());
                    let field = Field { ty: t, required, description, default: None, validation: None, contracts: Vec::new() };
                    proof {
                        assert(rule_views(field.contracts@) =~= Seq::<ContractRuleView>::empty());
                        assert(views(refs@) =~= refs0 + walk_props(pv.take(i + 1), req).1);
                    }
                    insert_field(&mut fields, name.clone(), field);
                    i = i + 1;
                }
                proof {
                    assert(pv.take(o.properties.len() as int) =~= pv);
                    lemma_fields_view(fields@);
                }
                Type::Record { fields, open: o.additional_properties.is_some() }
            },
            SchemaKind::OneOf(v) => {
                let types = self.list_to_types(v, refs);
                Type::Union { types, coercion_hint: None }
            },
            SchemaKind::AllOf(v) => {
                let types = self.list_to_types(v, refs);
                if types.len() == 0 {
                    return Type::Any;
                }
                merge_all_of_types(types)
            },
            SchemaKind::AnyOf(v) => {
                let types = self.list_to_types(v, refs);
                Type::Union { types, coercion_hint: None }
            },
            SchemaKind::Not(_) => {
                assert(views(refs@) =~= views(refs@) + Seq::<Seq<char>>::empty());
                Type::Any
            },
            SchemaKind::Any => {
                assert(views(refs@) =~= views(refs@) + Seq::<Seq<char>>::empty());
                Type::Any
            },
        }
    }

    /// The type of a schema or reference; a reference is recorded in `refs`
    /// and names a type of the same module.
    fn ref_to_type(&self, r: &SchemaRef, refs: &mut Vec<String>) -> (t: Type)
        ensures
            t@ == walk_ref(*r).0,
            views(final(refs)@) == views(old(refs)@) + walk_ref(*r).1,
        decreases r, 1nat,
    {
        match r {
            SchemaRef::Item(b) => self.schema_to_type(b, refs),
            SchemaRef::Reference(x) => {
                let ghost r0 = views(refs@);
                let name = reference_tail(x.as_str());
                refs.push(x.clone());
                assert(views(refs@) =~= r0 + seq![x@]);
                Type::Reference { name, module: None }
            },
        }
    }

    /// The types of a list of schemas, in order.
    fn list_to_types(&self, v: &Vec<SchemaRef>, refs: &mut Vec<String>) -> (r: Vec<Type>)
        ensures
            types_view(r@) == walk_list(v@).0,
            views(final(refs)@) == views(old(refs)@) + walk_list(v@).1,
        decreases v, 0nat,
    {
        let ghost refs0 = views(refs@);
        proof {
            assert(v@.take(0) =~= Seq::<SchemaRef>::empty());
            assert(views(refs@) =~= refs0 + Seq::<Seq<char>>::empty());
        }
        let mut out: Vec<Type> = Vec::new();
        let mut i: usize = 0;
        while i < v.len()
            invariant
                i <= v.len(),
                types_view(out@) == walk_list(v@.take(i as int)).0,
                views(refs@) == refs0 + walk_list(v@.take(i as int)).1,
            decreases v.len() - i,
        {
            proof {
                assert(v@.take(i + 1).drop_last() =~= v@.take(i as int));
                assert(v@.take(i + 1).last() == v@[i as int]);
                vstd::std_specs::vec::axiom_vec_index_decreases(*v, i as int);
            }
            let ghost o0 = out@;
            let t = self.ref_to_type(&v[i], refs);
            out.push(t);
            proof {
                lemma_types_view(out@);
                lemma_types_view(o0);
                assert(types_view(out@) =~= types_view(o0).push(t@));
                assert(views(refs@) =~= refs0 + walk_list(v@.take(i + 1)).1);
            }
            i = i + 1;
        }
        proof {
            assert(v@.take(v.len() as int) =~= v@);
        }
        out
    }
}

// ---------------------------------------------------------------------------
// The parser's conversion
// ---------------------------------------------------------------------------

/// The string values of an enumeration, in order, skipping the absent ones.
pub open spec fn string_enum_values(e: Seq<Option<String>>) -> Seq<JsonView>
    decreases e.len(),
{
    if e.len() == 0 {
        Seq::empty()
    } else {
        string_enum_values(e.drop_last()) + match e.last() {
            Some(x) => seq![JsonView::Str(x@)],
            None => Seq::empty(),
        }
    }
}

/// The integer values of an enumeration as JSON numbers, in order,
/// skipping the absent ones.
pub open spec fn int_enum_values(e: Seq<Option<i64>>) -> Seq<JsonView>
    decreases e.len(),
{
    if e.len() == 0 {
        Seq::empty()
    } else {
        int_enum_values(e.drop_last()) + match e.last() {
            Some(n) => seq![JsonView::Number(decimal_int_spec(n as int))],
            None => Seq::empty(),
        }
    }
}

/// Some values, when there are any.
pub open spec fn nonempty_values(v: Seq<JsonView>) -> Option<Seq<JsonView>> {
    if v.len() > 0 {
        Some(v)
    } else {
        None
    }
}

/// The decimal text of an optional integer.
pub open spec fn opt_decimal(o: Option<i64>) -> Option<Seq<char>> {
    match o {
        Some(n) => Some(decimal_int_spec(n as int)),
        None => None,
    }
}

/// Numeric bounds, moved to their exclusive slots when flagged exclusive.
pub open spec fn bounded_rules(
    min: Option<Seq<char>>,
    max: Option<Seq<char>>,
    exclusive_min: bool,
    exclusive_max: bool,
    values: Option<Seq<JsonView>>,
) -> RulesView {
    RulesView {
        minimum: if exclusive_min { None } else { min },
        exclusive_minimum: if exclusive_min { min } else { None },
        maximum: if exclusive_max { None } else { max },
        exclusive_maximum: if exclusive_max { max } else { None },
        allowed_values: values,
        ..empty_rules()
    }
}

/// The validation rules of a schema's own constraints, when it has any:
/// string lengths, pattern and enumeration; integer and number bounds (an
/// exclusive bound moves to its exclusive slot) and integer enumeration;
/// array sizes and uniqueness.
pub open spec fn schema_rules(s: Schema) -> Option<RulesView> {
    match s.kind {
        SchemaKind::String(st) => {
            let vals = string_enum_values(st.enumeration@);
            if st.min_length is Some || st.max_length is Some || st.pattern is Some || vals.len() > 0 {
                Some(
                    RulesView {
                        min_length: st.min_length,
                        max_length: st.max_length,
                        pattern: opt_str_view(st.pattern),
                        allowed_values: nonempty_values(vals),
                        ..empty_rules()
                    },
                )
            } else {
                None
            }
        },
        SchemaKind::Integer(it) => {
            let vals = int_enum_values(it.enumeration@);
            if it.minimum is Some || it.maximum is Some || vals.len() > 0 {
                Some(
                    bounded_rules(
                        opt_decimal(it.minimum),
                        opt_decimal(it.maximum),
                        it.exclusive_minimum,
                        it.exclusive_maximum,
                        nonempty_values(vals),
                    ),
                )
            } else {
                None
            }
        },
        SchemaKind::Number(nt) => if nt.minimum is Some || nt.maximum is Some {
            Some(
                bounded_rules(
                    opt_str_view(nt.minimum),
                    opt_str_view(nt.maximum),
                    nt.exclusive_minimum,
                    nt.exclusive_maximum,
                    None,
                ),
            )
        } else {
            None
        },
        SchemaKind::Array(at) => if at.min_items is Some || at.max_items is Some || at.unique_items {
            Some(
                RulesView {
                    min_items: at.min_items,
                    max_items: at.max_items,
                    unique_items: if at.unique_items { Some(true) } else { None },
                    ..empty_rules()
                },
            )
        } else {
            None
        },
        _ => None,
    }
}

/// The type of a schema as the parser sees it; `None` where a `not` schema
/// is met. References are not followed: an array of references holds
/// `Any`, and referenced properties and union members are left out.
pub open spec fn parse_schema(s: Schema) -> Option<TypeView>
    decreases s,
{
    match s.kind {
        SchemaKind::String(_) => Some(TypeView::String),
        SchemaKind::Number(_) => Some(TypeView::Number),
        SchemaKind::Integer(_) => Some(TypeView::Integer),
        SchemaKind::Boolean => Some(TypeView::Bool),
        SchemaKind::Array(a) => match a.items {
            Some(SchemaRef::Item(b)) => match parse_schema(*b) {
                Some(t) => Some(TypeView::Array(Box::new(t))),
                None => None,
            },
            _ => Some(TypeView::Array(Box::new(TypeView::Any))),
        },
        SchemaKind::Object(o) => match parse_props(o.properties@, views(o.required@)) {
            None => None,
            Some(fields) => {
                let record = TypeView::Record { fields, open: o.additional_properties is Some };
                if fields.len() == 0 {
                    match o.additional_properties {
                        Some(AdditionalProperties::Schema(r)) => match *r {
                            SchemaRef::Item(b) => match parse_schema(*b) {
                                Some(v) => Some(TypeView::Mapping { key: Box::new(TypeView::String), value: Box::new(v) }),
                                None => None,
                            },
                            SchemaRef::Reference(_) => Some(record),
                        },
                        Some(AdditionalProperties::Any(true)) => Some(
                            TypeView::Mapping { key: Box::new(TypeView::String), value: Box::new(TypeView::Any) },
                        ),
                        _ => Some(record),
                    }
                } else {
                    Some(record)
                }
            },
        },
        SchemaKind::OneOf(v) => match parse_items(v@) {
            Some(types) => Some(TypeView::Union { types, coercion_hint: None }),
            None => None,
        },
        SchemaKind::AllOf(_) => Some(TypeView::Any),
        SchemaKind::AnyOf(v) => match parse_items(v@) {
            Some(types) => Some(TypeView::Union { types, coercion_hint: None }),
            None => None,
        },
        SchemaKind::Not(_) => None,
        SchemaKind::Any => Some(TypeView::Any),
    }
}

/// The types of the inline schemas of a list, in order.
pub open spec fn parse_items(v: Seq<SchemaRef>) -> Option<Seq<TypeView>>
    decreases v,
{
    if v.len() == 0 {
        Some(Seq::empty())
    } else {
        proof {
            assert(v.drop_last() =~= v.subrange(0, v.len() - 1));
            assert(decreases_to!(v => v[v.len() - 1]));
        }
        match parse_items(v.drop_last()) {
            None => None,
            Some(types) => match v.last() {
                SchemaRef::Item(b) => match parse_schema(*b) {
                    Some(t) => Some(types.push(t)),
                    None => None,
                },
                SchemaRef::Reference(_) => Some(types),
            },
        }
    }
}

/// The fields of the inline properties of a list, with their validation
/// rules, put one after the other into an ordered map.
pub open spec fn parse_props(props: Seq<(String, SchemaRef)>, required: Seq<Seq<char>>) -> Option<Seq<(Seq<char>, FieldView)>>
    decreases props,
{
    if props.len() == 0 {
        Some(Seq::empty())
    } else {
        proof {
            assert(props.drop_last() =~= props.subrange(0, props.len() - 1));
            assert(decreases_to!(props => props[props.len() - 1]));
        }
        match parse_props(props.drop_last(), required) {
            None => None,
            Some(fields) => {
                let (name, prop) = props.last();
                match prop {
                    SchemaRef::Item(b) => match parse_schema(*b) {
                        Some(t) => Some(
                            map_insert(
                                fields,
                                name@,
                                FieldView {
                                    ty: t,
                                    required: required.contains(name@),
                                    description: opt_str_view(b.description),
                                    default: None,
                                    validation: schema_rules(*b),
                                    contracts: Seq::empty(),
                                },
                            ),
                        ),
                        None => None,
                    },
                    SchemaRef::Reference(_) => Some(fields),
                }
            },
        }
    }
}

/// The types of the inline component schemas, in order; `None` where one
/// cannot be read.
pub open spec fn parse_components(schemas: Seq<(String, SchemaRef)>) -> Option<Seq<(Seq<char>, TypeView)>>
    decreases schemas.len(),
{
    if schemas.len() == 0 {
        Some(Seq::empty())
    } else {
        match parse_components(schemas.drop_last()) {
            None => None,
            Some(types) => match schemas.last().1 {
                SchemaRef::Item(b) => match parse_schema(*b) {
                    Some(t) => Some(types.push((schemas.last().0@, t))),
                    None => None,
                },
                SchemaRef::Reference(_) => Some(types),
            },
        }
    }
}

/// The error for a `not` schema.
pub open spec fn not_supported(e: ParserError) -> bool {
    e matches ParserError::UnsupportedFeature(m) && m@ == "'not' schema"@
}

fn string_enum(e: &Vec<Option<String>>) -> (r: Vec<JsonValue>)
    ensures
        json_seq_view(r@) == string_enum_values(e@),
{
    let mut out: Vec<JsonValue> = Vec::new();
    let mut i: usize = 0;
    proof {
        assert(e@.take(0) =~= Seq::<Option<String>>::empty());
    }
    while i < e.len()
        invariant
            i <= e.len(),
            json_seq_view(out@) == string_enum_values(e@.take(i as int)),
        decreases e.len() - i,
    {
        proof {
            assert(e@.take(i + 1).drop_last() =~= e@.take(i as int));
        }
        let ghost o0 = out@;
        match &e[i] {
            Some(x) => {
                out.push(JsonValue::Str(x.clone()));
                proof {
                    assert(out@.drop_last() =~= o0);
                    assert(out@.last()@ == JsonView::Str(x@));
                    assert(json_seq_view(out@) == json_seq_view(out@.drop_last()).push(out@.last().view_of()));
                    assert(json_seq_view(out@) =~= json_seq_view(o0) + seq![JsonView::Str(x@)]);
                }
            },
            None => {
                assert(json_seq_view(out@) =~= json_seq_view(o0) + Seq::<JsonView>::empty());
            },
        }
        i = i + 1;
    }
    proof {
        assert(e@.take(e.len() as int) =~= e@);
    }
    out
}

fn int_enum(e: &Vec<Option<i64>>) -> (r: Vec<JsonValue>)
    ensures
        json_seq_view(r@) == int_enum_values(e@),
{
    let mut out: Vec<JsonValue> = Vec::new();
    let mut i: usize = 0;
    proof {
        assert(e@.take(0) =~= Seq::<Option<i64>>::empty());
    }
    while i < e.len()
        invariant
            i <= e.len(),
            json_seq_view(out@) == int_enum_values(e@.take(i as int)),
        decreases e.len() - i,
    {
        proof {
            assert(e@.take(i + 1).drop_last() =~= e@.take(i as int));
        }
        let ghost o0 = out@;
        match e[i] {
            Some(n) => {
                let d = decimal_i64(n);
                out.push(JsonValue::Number(d));
                proof {
                    assert(out@.drop_last() =~= o0);
                    assert(out@.last()@ == JsonView::Number(decimal_int_spec(n as int)));
                    assert(json_seq_view(out@) == json_seq_view(out@.drop_last()).push(out@.last().view_of()));
                    assert(json_seq_view(out@) =~= json_seq_view(o0) + seq![JsonView::Number(decimal_int_spec(n as int))]);
                }
            },
            None => {
                assert(json_seq_view(out@) =~= json_seq_view(o0) + Seq::<JsonView>::empty());
            },
        }
        i = i + 1;
    }
    proof {
        assert(e@.take(e.len() as int) =~= e@);
    }
    out
}

fn opt_decimal_exec(o: Option<i64>) -> (r: Option<String>)
    ensures
        opt_str_view(r) == opt_decimal(o),
{
    match o {
        Some(n) => Some(decimal_i64(n)),
        None => None,
    }
}

/// Rules holding numeric bounds, moved to the exclusive slots when flagged.
fn bounded(
    min: Option<String>,
    max: Option<String>,
    exclusive_min: bool,
    exclusive_max: bool,
    values: Option<Vec<JsonValue>>,
) -> (r: ValidationRules)
    ensures
        r@ == bounded_rules(
            opt_str_view(min),
            opt_str_view(max),
            exclusive_min,
            exclusive_max,
            crate::types::opt_values_view(values),
        ),
{
    let mut rules = ValidationRules::default();
    let ghost (mn, mx) = (opt_str_view(min), opt_str_view(max));
    if exclusive_min {
        rules.exclusive_minimum = min;
    } else {
        rules.minimum = min;
    }
    if exclusive_max {
        rules.exclusive_maximum = max;
    } else {
        rules.maximum = max;
    }
    rules.allowed_values = values;
    rules
}

impl OpenAPIParser {
    /// The validation rules of a schema's own constraints, when it has any.
    pub fn extract_validation_rules(&self, schema: &Schema) -> (r: Option<ValidationRules>)
        ensures
            opt_rules_view(r) == schema_rules(*schema),
    {
        match &schema.kind {
            SchemaKind::String(st) => {
                let vals = string_enum(&st.enumeration);
                let any_rule = st.min_length.is_some() || st.max_length.is_some() || st.pattern.is_some() || vals.len() > 0;
                if !any_rule {
                    return None;
                }
                let mut rules = ValidationRules::default();
                rules.min_length = st.min_length;
                rules.max_length = st.max_length;
                rules.pattern = crate::types::copy_opt_string(&st.pattern);
                rules.allowed_values = if vals.len() > 0 {
                    Some(vals)
                } else {
                    None
                };
                Some(rules)
            },
            SchemaKind::Integer(it) => {
                let vals = int_enum(&it.enumeration);
                let any_rule = it.minimum.is_some() || it.maximum.is_some() || vals.len() > 0;
                if !any_rule {
                    return None;
                }
                let values = if vals.len() > 0 {
                    Some(vals)
                } else {
                    None
                };
                Some(
                    bounded(
                        opt_decimal_exec(it.minimum),
                        opt_decimal_exec(it.maximum),
                        it.exclusive_minimum,
                        it.exclusive_maximum,
                        values,
                    ),
                )
            },
            SchemaKind::Number(nt) => {
                if nt.minimum.is_none() && nt.maximum.is_none() {
                    return None;
                }
                Some(
                    bounded(
                        crate::types::copy_opt_string(&nt.minimum),
                        crate::types::copy_opt_string(&nt.maximum),
                        nt.exclusive_minimum,
                        nt.exclusive_maximum,
                        None,
                    ),
                )
            },
            SchemaKind::Array(at) => {
                if at.min_items.is_none() && at.max_items.is_none() && !at.unique_items {
                    return None;
                }
                let mut rules = ValidationRules::default();
                rules.min_items = at.min_items;
                rules.max_items = at.max_items;
                if at.unique_items {
                    rules.unique_items = Some(true);
                }
                Some(rules)
            },
            _ => None,
        }
    }

    /// The type of a schema, or the error for a `not` schema met on the way.
    pub fn schema_to_type(&self, schema: &Schema) -> (r: Result<Type, ParserError>)
        ensures
            match r {
                Ok(t) => parse_schema(*schema) == Some(t@),
                Err(e) => parse_schema(*schema) is None && not_supported(e),
            },
        decreases schema,
    {
        match &schema.kind {
            SchemaKind::String(_) => Ok(Type::String),
            SchemaKind::Number(_) => Ok(Type::Number),
            SchemaKind::Integer(_) => Ok(Type::Integer),
            SchemaKind::Boolean => Ok(Type::Bool),
            SchemaKind::Array(a) => {
                match &a.items {
                    Some(SchemaRef::Item(b)) => {
                        let t = self.schema_to_type(b)?;
                        Ok(Type::Array(Box::new(t)))
                    },
                    _ => {
                        let any = Type::Any;
                        assert(any@ == TypeView::Any);
                        Ok(Type::Array(Box::new(any)))
                    },
                }
            },
            SchemaKind::Object(o) => {
                let ghost pv = o.properties@;
                let ghost req = views(o.required@);
                let mut fields: Vec<(String, Field)> = Vec::new();
                proof {
                    assert(pv.take(0) =~= Seq::<(String, SchemaRef)>::empty());
                }
                let mut i: usize = 0;
                while i < o.properties.len()
                    invariant
                        schema.kind == SchemaKind::Object(*o),
                        pv == o.properties@,
                        req == views(o.required@),
                        i <= o.properties.len(),
                        parse_props(pv.take(i as int), req) == Some(fields_view(fields@)),
                    decreases o.properties.len() - i,
                {
                    proof {
                        assert(pv.take(i + 1).drop_last() =~= pv.take(i as int));
                        assert(pv.take(i + 1).last() == pv[i as int]);
                        vstd::std_specs::vec::axiom_vec_index_decreases(o.properties, i as int);
                        assert(decreases_to!(*schema => schema.kind));
                        assert(decreases_to!(schema.kind => (schema.kind)->Object_0));
                        assert(decreases_to!(pv[i as int] => pv[i as int].1));
                    }
                    let name = &o.properties[i].0;
                    match &o.properties[i].1 {
                        SchemaRef::Item(b) => {
                            proof {
                                assert(decreases_to!(pv[i as int].1 => (pv[i as int].1)->Item_0));
                            }
                            let t = match self.schema_to_type(b) {
                                Ok(t) => t,
                                Err(e) => {
                                    proof {
                                        lemma_parse_props_none(pv, req, i as int);
                                    }
                                    return Err(e);
                                },
                            };
                            let required = contains_str(&o.required, name.as_str());
                            let validation = self.extract_validation_rules(b);
                            let field = Field {
                                ty: t,
                                required,
                                description: crate::types::copy_opt_string(&b.description),
                                default: None,
                                validation,
                                contracts: Vec::new(),
                            };
                            proof {
                                assert(rule_views(field.contracts@) =~= Seq::<ContractRuleView>::empty());
                            }
                            insert_field(&mut fields, name.clone(), field);
                        },
                        SchemaRef::Reference(_) => {},
                    }
                    i = i + 1;
                }
                proof {
                    assert(pv.take(o.properties.len() as int) =~= pv);
                    lemma_fields_view(fields@);
                }
                if fields.len() == 0 {
                    match &o.additional_properties {
                        Some(AdditionalProperties::Schema(r)) => {
                            if let SchemaRef::Item(b) = &**r {
                                proof {
                                    assert(decreases_to!(*schema => schema.kind));
                                    assert(decreases_to!(schema.kind => (schema.kind)->Object_0));
                                }
                                let v = self.schema_to_type(b)?;
                                let key = Type::String;
                                assert(key@ == TypeView::String);
                                return Ok(Type::Mapping { key: Box::new(key), value: Box::new(v) });
                            }
                        },
                        Some(AdditionalProperties::Any(true)) => {
                            let key = Type::String;
                            let value = Type::Any;
                            assert(key@ == TypeView::String);
                            assert(value@ == TypeView::Any);
                            return Ok(Type::Mapping { key: Box::new(key), value: Box::new(value) });
                        },
                        _ => {},
                    }
                }
                Ok(Type::Record { fields, open: o.additional_properties.is_some() })
            },
            SchemaKind::OneOf(v) => {
                let types = self.items_to_types(v)?;
                Ok(Type::Union { types, coercion_hint: None })
            },
            SchemaKind::AllOf(_) => Ok(Type::Any),
            SchemaKind::AnyOf(v) => {
                let types = self.items_to_types(v)?;
                Ok(Type::Union { types, coercion_hint: None })
            },
            SchemaKind::Not(_) => {
                let e = ParserError::UnsupportedFeature(to_owned_string("'not' schema"));
                Err(e)
            },
            SchemaKind::Any => Ok(Type::Any),
        }
    }

    /// The types of the inline schemas of a list, in order.
    fn items_to_types(&self, v: &Vec<SchemaRef>) -> (r: Result<Vec<Type>, ParserError>)
        ensures
            match r {
                Ok(ts) => parse_items(v@) == Some(types_view(ts@)),
                Err(e) => parse_items(v@) is None && not_supported(e),
            },
        decreases v,
    {
        let mut out: Vec<Type> = Vec::new();
        let mut i: usize = 0;
        proof {
            assert(v@.take(0) =~= Seq::<SchemaRef>::empty());
            lemma_types_view(out@);
        }
        while i < v.len()
            invariant
                i <= v.len(),
                parse_items(v@.take(i as int)) == Some(types_view(out@)),
            decreases v.len() - i,
        {
            proof {
                assert(v@.take(i + 1).drop_last() =~= v@.take(i as int));
                assert(v@.take(i + 1).last() == v@[i as int]);
                vstd::std_specs::vec::axiom_vec_index_decreases(*v, i as int);
            }
            match &v[i] {
                SchemaRef::Item(b) => {
                    proof {
                        assert(decreases_to!(v@[i as int] => (v@[i as int])->Item_0));
                    }
                    match self.schema_to_type(b) {
                        Ok(t) => {
                            let ghost o0 = out@;
                            out.push(t);
                            proof {
                                lemma_types_view(out@);
                                lemma_types_view(o0);
                                assert(types_view(out@) =~= types_view(o0).push(t@));
                            }
                        },
                        Err(e) => {
                            proof {
                                lemma_parse_items_none(v@, i as int);
                            }
                            return Err(e);
                        },
                    }
                },
                SchemaRef::Reference(_) => {},
            }
            i = i + 1;
        }
        proof {
            assert(v@.take(v.len() as int) =~= v@);
        }
        Ok(out)
    }

    /// The representation of inline component schemas: one module named
    /// `openapi` holding a type for each, in order.
    pub fn parse(&self, schemas: &Vec<(String, SchemaRef)>) -> (r: Result<IR, ParserError>)
        ensures
            match r {
                Ok(ir) => parse_components(schemas@) matches Some(types) && ir.modules@.len() == 1 && {
                    let m = ir.modules@[0];
                    &&& m.name@ == "openapi"@
                    &&& m.types@.len() == types.len()
                    &&& forall|k: int| 0 <= k < types.len() ==> (#[trigger] m.types@[k]).name@ == types[k].0
                        && m.types@[k].ty@ == types[k].1
                },
                Err(e) => parse_components(schemas@) is None && not_supported(e),
            },
    {
        let mut builder = IRBuilder::new().module("openapi");
        let ghost mut types: Seq<(Seq<char>, TypeView)> = Seq::empty();
        let mut i: usize = 0;
        while i < schemas.len()
            invariant
                i <= schemas.len(),
                parse_components(schemas@.take(i as int)) == Some(types),
                builder.finished().len() == 0,
                builder.current() matches Some(m) && {
                    &&& m.name@ == "openapi"@
                    &&& m.types@.len() == types.len()
                    &&& forall|k: int| 0 <= k < types.len() ==> (#[trigger] m.types@[k]).name@ == types[k].0
                        && m.types@[k].ty@ == types[k].1
                },
            decreases schemas.len() - i,
        {
            proof {
                assert(schemas@.take(i + 1).drop_last() =~= schemas@.take(i as int));
                assert(schemas@.take(i + 1).last() == schemas@[i as int]);
            }
            match &schemas[i].1 {
                SchemaRef::Item(b) => {
                    let t = match self.schema_to_type(b) {
                        Ok(t) => t,
                        Err(e) => {
                            proof {
                                lemma_parse_components_none(schemas@, i as int);
                            }
                            return Err(e);
                        },
                    };
                    let ghost tv = t@;
                    let ghost m0 = builder.current()->0;
                    builder = builder.add_type(schemas[i].0.as_str(), t);
                    proof {
                        let m2 = builder.current()->0;
                        let old_types = types;
                        types = types.push((schemas@[i as int].0@, tv));
                        assert forall|k: int| 0 <= k < types.len() implies (#[trigger] m2.types@[k]).name@ == types[k].0
                            && m2.types@[k].ty@ == types[k].1 by {
                            if k < old_types.len() {
                                assert(m2.types@[k] == m2.types@.take(m0.types@.len() as int)[k]);
                                assert(m0.types@[k].name@ == old_types[k].0);
                            }
                        }
                    }
                },
                SchemaRef::Reference(_) => {},
            }
            i = i + 1;
        }
        proof {
            assert(schemas@.take(schemas.len() as int) =~= schemas@);
        }
        Ok(builder.build())
    }
}

/// A failed item makes the whole list fail.
proof fn lemma_parse_items_none(v: Seq<SchemaRef>, i: int)
    requires
        0 <= i < v.len(),
        v[i] matches SchemaRef::Item(b) && parse_schema(*b) is None,
    ensures
        parse_items(v) is None,
    decreases v.len(),
{
    if i < v.len() - 1 {
        lemma_parse_items_none(v.drop_last(), i);
    }
}

/// A failed property makes the whole list fail.
proof fn lemma_parse_props_none(props: Seq<(String, SchemaRef)>, required: Seq<Seq<char>>, i: int)
    requires
        0 <= i < props.len(),
        props[i].1 matches SchemaRef::Item(b) && parse_schema(*b) is None,
    ensures
        parse_props(props, required) is None,
    decreases props.len(),
{
    if i < props.len() - 1 {
        lemma_parse_props_none(props.drop_last(), required, i);
    }
}

/// A failed component makes the whole list fail.
proof fn lemma_parse_components_none(schemas: Seq<(String, SchemaRef)>, i: int)
    requires
        0 <= i < schemas.len(),
        schemas[i].1 matches SchemaRef::Item(b) && parse_schema(*b) is None,
    ensures
        parse_components(schemas) is None,
    decreases schemas.len(),
{
    if i < schemas.len() - 1 {
        lemma_parse_components_none(schemas.drop_last(), i);
    }
}

// ---------------------------------------------------------------------------
// Laws of the OpenAPI walker
// ---------------------------------------------------------------------------

/// A list of schemas converts member by member: the types are the members'
/// types in order, the references those of the members one after another.
proof fn lemma_walk_list_members(v: Seq<SchemaRef>)
    ensures
        walk_list(v).0 == Seq::new(v.len(), |i: int| walk_ref(v[i]).0),
        walk_list(v).1 == Seq::new(v.len(), |i: int| walk_ref(v[i]).1).flatten_alt(),
    decreases v.len(),
{
    if v.len() > 0 {
        let init = v.drop_last();
        lemma_walk_list_members(init);
        let rs = Seq::new(v.len(), |i: int| walk_ref(v[i]).1);
        let rs0 = Seq::new(init.len(), |i: int| walk_ref(init[i]).1);
        assert(rs.drop_last() =~= rs0);
    }
    assert(walk_list(v).0 =~= Seq::new(v.len(), |i: int| walk_ref(v[i]).0));
}

/// An `anyOf` schema becomes the union of its members' types, in order,
/// with no coercion hint; the references met are those of the members, one
/// after another.
pub proof fn law_any_of_is_union_of_members(s: Schema, members: Vec<SchemaRef>)
    requires
        s.kind == SchemaKind::AnyOf(members),
    ensures
        walk_schema(s).0 == (TypeView::Union {
            types: Seq::new(members@.len(), |i: int| walk_ref(members@[i]).0),
            coercion_hint: None,
        }),
        walk_schema(s).1 == Seq::new(members@.len(), |i: int| walk_ref(members@[i]).1).flatten(),
{
    lemma_walk_list_members(members@);
    Seq::new(members@.len(), |i: int| walk_ref(members@[i]).1).lemma_flatten_and_flatten_alt_are_equivalent();
}

/// `anyOf` and `oneOf` over the same members give the same type and the
/// same references, whatever the descriptions.
pub proof fn law_any_of_like_one_of(a: Schema, b: Schema, members: Vec<SchemaRef>)
    requires
        a.kind == SchemaKind::AnyOf(members),
        b.kind == SchemaKind::OneOf(members),
    ensures
        walk_schema(a) == walk_schema(b),
{
    lemma_walk_list_members(members@);
    assert(walk_schema(b).0 == (TypeView::Union {
        types: Seq::new(members@.len(), |i: int| walk_ref(members@[i]).0),
        coercion_hint: None,
    }));
}

/// A `oneOf` schema becomes the union of its members' types, in order,
/// with no coercion hint; the references met are those of the members, one
/// after another.
pub proof fn law_one_of_is_union_of_members(s: Schema, members: Vec<SchemaRef>)
    requires
        s.kind == SchemaKind::OneOf(members),
    ensures
        walk_schema(s).0 == (TypeView::Union {
            types: Seq::new(members@.len(), |i: int| walk_ref(members@[i]).0),
            coercion_hint: None,
        }),
        walk_schema(s).1 == Seq::new(members@.len(), |i: int| walk_ref(members@[i]).1).flatten(),
{
    lemma_walk_list_members(members@);
    Seq::new(members@.len(), |i: int| walk_ref(members@[i]).1).lemma_flatten_and_flatten_alt_are_equivalent();
}

/// Scalar schemas become the matching scalar types, with no references;
/// `not` and untyped schemas accept anything.
pub proof fn law_scalar_schemas(s: Schema)
    ensures
        s.kind is String ==> walk_schema(s) == (TypeView::String, Seq::<Seq<char>>::empty()),
        s.kind is Number ==> walk_schema(s) == (TypeView::Number, Seq::<Seq<char>>::empty()),
        s.kind is Integer ==> walk_schema(s) == (TypeView::Integer, Seq::<Seq<char>>::empty()),
        s.kind is Boolean ==> walk_schema(s) == (TypeView::Bool, Seq::<Seq<char>>::empty()),
        s.kind is Any ==> walk_schema(s) == (TypeView::Any, Seq::<Seq<char>>::empty()),
{
}

/// A number schema with a bound yields rules whose upper bound is its
/// maximum, in the exclusive slot exactly when the maximum is exclusive,
/// and whose lower bound is its minimum in the same way; the lower bound
/// never moves into an upper slot nor the upper into a lower one.
pub proof fn law_number_schema_bounds(s: Schema, nt: NumberType)
    requires
        s.kind == SchemaKind::Number(nt),
        nt.minimum is Some || nt.maximum is Some,
    ensures
        schema_rules(s) is Some,
        schema_rules(s).unwrap().maximum == (if nt.exclusive_maximum { None } else { opt_str_view(nt.maximum) }),
        schema_rules(s).unwrap().exclusive_maximum == (if nt.exclusive_maximum {
            opt_str_view(nt.maximum)
        } else {
            None
        }),
        schema_rules(s).unwrap().minimum == (if nt.exclusive_minimum { None } else { opt_str_view(nt.minimum) }),
        schema_rules(s).unwrap().exclusive_minimum == (if nt.exclusive_minimum {
            opt_str_view(nt.minimum)
        } else {
            None
        }),
{
}

/// A number schema without bounds, and a string schema without any
/// constraint, yield no rules.
pub proof fn law_unconstrained_schemas_have_no_rules(s: Schema)
    ensures
        (s.kind matches SchemaKind::Number(nt) && nt.minimum is None && nt.maximum is None) ==> schema_rules(s) is None,
        (s.kind matches SchemaKind::String(st) && st.min_length is None && st.max_length is None && st.pattern is None
            && st.enumeration@.len() == 0) ==> schema_rules(s) is None,
{
    if let SchemaKind::String(st) = s.kind {
        if st.enumeration@.len() == 0 {
            assert(string_enum_values(st.enumeration@).len() == 0);
        }
    }
}

} // verus!
