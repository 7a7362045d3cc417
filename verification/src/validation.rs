//! String-format names from JSON Schema and Kubernetes, and what the
//! Swagger 2.0 reader computes: the types of definition schemas and the
//! splitting of Kubernetes type names.

use vstd::prelude::*;
use vstd::string::StringExecFns;
use crate::text::{
    is_prefix, join_range, join_spec, push_char, split_char, split_spec, starts_with, str_eq,
    to_owned_string, views,
};
use crate::json::{json_seq_view, lemma_json_entries_view, lemma_json_seq_view, json_entries_view, JsonValue, JsonView};
use crate::types::{
    empty_rules, fields_view, format_view, insert_field, lemma_fields_view, lemma_types_view, map_insert,
    opt_json_view, opt_values_view, rule_views, types_view, ContractRule, ContractRuleView, Field, FieldView,
    RulesView, StringFormat, Type, TypeView, ValidationRules,
};
use crate::text::{decimal, decimal_spec, join};
use crate::walkers::{lemma_member_decreases, names_contain, required_items};

verus! {

broadcast use vstd::string::group_string_axioms;

/// The format a known `format` name stands for: the standard JSON Schema
/// formats and the two DNS-1123 Kubernetes formats.
pub open spec fn known_format_spec(format: Seq<char>) -> Option<StringFormat> {
    if format == "date-time"@ {
        Some(StringFormat::DateTime)
    } else if format == "date"@ {
        Some(StringFormat::Date)
    } else if format == "time"@ {
        Some(StringFormat::Time)
    } else if format == "email"@ {
        Some(StringFormat::Email)
    } else if format == "hostname"@ {
        Some(StringFormat::Hostname)
    } else if format == "ipv4"@ {
        Some(StringFormat::Ipv4)
    } else if format == "ipv6"@ {
        Some(StringFormat::Ipv6)
    } else if format == "uri"@ {
        Some(StringFormat::Uri)
    } else if format == "uri-reference"@ {
        Some(StringFormat::UriReference)
    } else if format == "uuid"@ {
        Some(StringFormat::Uuid)
    } else if format == "dns1123-subdomain"@ {
        Some(StringFormat::Dns1123Subdomain)
    } else if format == "dns1123-label"@ {
        Some(StringFormat::Dns1123Label)
    } else {
        None
    }
}

/// Extracts validation rules from schemas.
pub struct ValidationExtractor;

impl ValidationExtractor {
    /// The string format a `format` keyword names: a known format, or a
    /// custom one carrying the name.
    pub fn parse_string_format(format: &str) -> (r: Option<StringFormat>)
        ensures
            match known_format_spec(format@) {
                Some(k) => r == Some(k),
                None => r matches Some(StringFormat::Custom(s)) && s@ == format@,
            },
    {
        if str_eq(format, "date-time") {
            Some(StringFormat::DateTime)
        } else if str_eq(format, "date") {
            Some(StringFormat::Date)
        } else if str_eq(format, "time") {
            Some(StringFormat::Time)
        } else if str_eq(format, "email") {
            Some(StringFormat::Email)
        } else if str_eq(format, "hostname") {
            Some(StringFormat::Hostname)
        } else if str_eq(format, "ipv4") {
            Some(StringFormat::Ipv4)
        } else if str_eq(format, "ipv6") {
            Some(StringFormat::Ipv6)
        } else if str_eq(format, "uri") {
            Some(StringFormat::Uri)
        } else if str_eq(format, "uri-reference") {
            Some(StringFormat::UriReference)
        } else if str_eq(format, "uuid") {
            Some(StringFormat::Uuid)
        } else if str_eq(format, "dns1123-subdomain") {
            Some(StringFormat::Dns1123Subdomain)
        } else if str_eq(format, "dns1123-label") {
            Some(StringFormat::Dns1123Label)
        } else {
            Some(StringFormat::Custom(to_owned_string(format)))
        }
    }
}

/// Module path and type name of a Swagger definition name: for
/// `io.k8s.*` names, everything before the last dotted part and the last
/// part; other names go to the `types` module whole.
pub open spec fn k8s_type_name_spec(full_name: Seq<char>) -> (Seq<char>, Seq<char>) {
    let parts = split_spec(full_name, '.');
    if is_prefix("io.k8s."@, full_name) && parts.len() > 1 {
        (join_spec(parts.take(parts.len() - 1), seq!['.']), parts.last())
    } else {
        ("types"@, full_name)
    }
}

/// Parser for Swagger 2.0 documents.
pub struct SwaggerParser;

impl SwaggerParser {
    /// A parser.
    pub fn new() -> (r: SwaggerParser) {
        SwaggerParser
    }
}

/// Parser for OpenAPI documents.
pub struct OpenAPIParser;

impl OpenAPIParser {
    /// A parser.
    pub fn new() -> (r: OpenAPIParser) {
        OpenAPIParser
    }
}

/// Split a Kubernetes type name into module path and type name, e.g.
/// `io.k8s.api.core.v1.Pod` into `io.k8s.api.core.v1` and `Pod`.
pub fn parse_k8s_type_name(full_name: &str) -> (r: (String, String))
    ensures
        (r.0@, r.1@) == k8s_type_name_spec(full_name@),
{
    if starts_with(full_name, "io.k8s.") {
        let parts = split_char(full_name, '.');
        let ghost ps = views(parts@);
        if parts.len() > 1 {
            let n = parts.len();
            let kind = parts[n - 1].clone();
            let mut dot = String::new();
            push_char(&mut dot, '.');
            let module_part = join_range(&parts, 0, n - 1, dot.as_str());
            proof {
                assert(ps.subrange(0, n - 1) =~= ps.take(n - 1));
                assert(ps.last() == parts@[n - 1]@);
            }
            return (module_part, kind);
        }
    }
    proof {
        reveal_strlit("types");
    }
    (to_owned_string("types"), to_owned_string(full_name))
}

// ---------------------------------------------------------------------------
// Swagger definition schemas to types
// ---------------------------------------------------------------------------

/// The type of a Swagger definition schema: a `#/definitions/` reference
/// names its type; the primitive types map to themselves; arrays and objects
/// convert their items and properties; otherwise `oneOf` and `anyOf` give
/// unions, and anything else (`allOf` among it) is `Any`.
pub open spec fn swagger_type(s: JsonView) -> TypeView
    decreases s,
{
    let r = s.str_member("$ref"@);
    if r is Some && is_prefix("#/definitions/"@, r.unwrap()) {
        TypeView::Reference { name: r.unwrap().skip("#/definitions/"@.len() as int), module: None }
    } else {
        let t = s.str_member("type"@);
        if t == Some("string"@) {
            TypeView::String
        } else if t == Some("number"@) {
            TypeView::Number
        } else if t == Some("integer"@) {
            TypeView::Integer
        } else if t == Some("boolean"@) {
            TypeView::Bool
        } else if t == Some("array"@) {
            match s.get("items"@) {
                Some(items) => {
                    proof {
                        lemma_member_decreases(s, "items"@);
                    }
                    TypeView::Array(Box::new(swagger_type(items)))
                },
                None => TypeView::Array(Box::new(TypeView::Any)),
            }
        } else if t == Some("object"@) {
            let fields = match s.get("properties"@) {
                Some(JsonView::Object(props)) => {
                    proof {
                        lemma_member_decreases(s, "properties"@);
                    }
                    swagger_props(props, required_items(s))
                },
                _ => Seq::empty(),
            };
            TypeView::Record { fields, open: s.get("additionalProperties"@) is Some }
        } else if s.get("allOf"@) is Some {
            TypeView::Any
        } else {
            match s.get("oneOf"@) {
                Some(JsonView::Array(items)) => {
                    proof {
                        lemma_member_decreases(s, "oneOf"@);
                    }
                    TypeView::Union { types: swagger_list(items), coercion_hint: None }
                },
                _ => match s.get("anyOf"@) {
                    Some(JsonView::Array(items)) => {
                        proof {
                            lemma_member_decreases(s, "anyOf"@);
                        }
                        TypeView::Union { types: swagger_list(items), coercion_hint: None }
                    },
                    _ => TypeView::Any,
                },
            }
        }
    }
}

/// The types of a list of schemas, in order.
pub open spec fn swagger_list(items: Seq<JsonView>) -> Seq<TypeView>
    decreases items,
{
    if items.len() == 0 {
        Seq::empty()
    } else {
        proof {
            assert(items.drop_last() =~= items.subrange(0, items.len() - 1));
        }
        swagger_list(items.drop_last()).push(swagger_type(items.last()))
    }
}

/// The fields of a list of properties put one after the other into an
/// ordered map; a field keeps the property's description and default.
pub open spec fn swagger_props(props: Seq<(Seq<char>, JsonView)>, required: Seq<JsonView>) -> Seq<(Seq<char>, FieldView)>
    decreases props,
{
    if props.len() == 0 {
        Seq::empty()
    } else {
        proof {
            assert(props.drop_last() =~= props.subrange(0, props.len() - 1));
            assert(decreases_to!(props => props[props.len() - 1]));
        }
        let (name, ps) = props.last();
        let field = FieldView {
            ty: swagger_type(ps),
            required: names_contain(required, name),
            description: ps.str_member("description"@),
            default: ps.get("default"@),
            validation: None,
            contracts: Seq::empty(),
        };
        map_insert(swagger_props(props.drop_last(), required), name, field)
    }
}

/// The type of a Swagger definition schema.
pub fn json_schema_to_type(schema: &JsonValue) -> (r: Type)
    ensures
        r@ == swagger_type(schema@),
    decreases schema, 1nat,
{
    if let Some(r) = schema.str_member("$ref") {
        if starts_with(r.as_str(), "#/definitions/") {
            let cs = crate::text::chars_of(r.as_str());
            let prefix_len = crate::text::chars_of("#/definitions/").len();
            let name = crate::text::string_of_range(&cs, prefix_len, cs.len());
            return Type::Reference { name, module: None };
        }
    }
    let t = schema.str_member("type");
    if opt_is(&t, "string") {
        return Type::String;
    }
    if opt_is(&t, "number") {
        return Type::Number;
    }
    if opt_is(&t, "integer") {
        return Type::Integer;
    }
    if opt_is(&t, "boolean") {
        return Type::Bool;
    }
    if opt_is(&t, "array") {
        return match schema.get("items") {
            Some(items) => Type::Array(Box::new(json_schema_to_type(items))),
            None => {
                let any = Type::Any;
                assert(any@ == TypeView::Any);
                Type::Array(Box::new(any))
            },
        };
    }
    if opt_is(&t, "object") {
        let mut fields: Vec<(String, Field)> = Vec::new();
        let props = match schema.get("properties") {
            Some(pv) => pv.as_object(),
            None => None,
        };
        if let Some(props) = props {
            let required = match schema.get("required") {
                Some(v) => v.as_array(),
                None => None,
            };
            let ghost pe = json_entries_view(props@);
            let ghost req = required_items(schema@);
            proof {
                lemma_json_entries_view(props@);
                assert(pe.take(0) =~= Seq::<(Seq<char>, JsonView)>::empty());
            }
            let mut i: usize = 0;
            while i < props.len()
                invariant
                    decreases_to!(*schema => *props),
                    pe == json_entries_view(props@),
                    pe.len() == props.len(),
                    forall|j: int| 0 <= j < props.len() ==> #[trigger] pe[j] == (props@[j].0@, props@[j].1@),
                    req == required_items(schema@),
                    match required {
                        Some(v) => req == json_seq_view(v@),
                        None => req == Seq::<JsonView>::empty(),
                    },
                    i <= props.len(),
                    fields_view(fields@) == swagger_props(pe.take(i as int), req),
                decreases props.len() - i,
            {
                proof {
                    assert(pe.take(i + 1).drop_last() =~= pe.take(i as int));
                    assert(pe.take(i + 1).last() == pe[i as int]);
                    vstd::std_specs::vec::axiom_vec_index_decreases(*props, i as int);
                    assert(decreases_to!(props@[i as int] => props@[i as int].1));
                }
                let ps = &props[i].1;
                let ty = json_schema_to_type(ps);
                let name = &props[i].0;
                let is_required = match required {
                    Some(v) => crate::walkers::names_contain_exec(v, name.as_str()),
                    None => false,
                };
                let default = match ps.get("default") {
                    Some(d) => Some(d.duplicate()),
                    None => None,
                };
                let field = Field {
                    ty,
                    required: is_required,
                    description: ps.str_member("description"),
                    default,
                    validation: None,
                    contracts: Vec::new(),
                };
                proof {
                    assert(crate::types::rule_views(field.contracts@) =~= Seq::<crate::types::ContractRuleView>::empty());
                }
                insert_field(&mut fields, name.clone(), field);
                i = i + 1;
            }
            proof {
                assert(pe.take(props.len() as int) =~= pe);
            }
        }
        let open = schema.get("additionalProperties").is_some();
        proof {
            lemma_fields_view(fields@);
        }
        return Type::Record { fields, open };
    }
    if schema.get("allOf").is_some() {
        return Type::Any;
    }
    let one_of = match schema.get("oneOf") {
        Some(v) => v.as_array(),
        None => None,
    };
    if let Some(items) = one_of {
        return Type::Union { types: swagger_list_to_types(items), coercion_hint: None };
    }
    let any_of = match schema.get("anyOf") {
        Some(v) => v.as_array(),
        None => None,
    };
    if let Some(items) = any_of {
        return Type::Union { types: swagger_list_to_types(items), coercion_hint: None };
    }
    Type::Any
}

/// The types of a list of schemas, in order.
fn swagger_list_to_types(items: &Vec<JsonValue>) -> (r: Vec<Type>)
    ensures
        types_view(r@) == swagger_list(json_seq_view(items@)),
    decreases items, 0nat,
{
    let ghost iv = json_seq_view(items@);
    proof {
        lemma_json_seq_view(items@);
        assert(iv.take(0) =~= Seq::<JsonView>::empty());
    }
    let mut out: Vec<Type> = Vec::new();
    let mut i: usize = 0;
    while i < items.len()
        invariant
            iv == json_seq_view(items@),
            iv.len() == items.len(),
            forall|j: int| 0 <= j < items.len() ==> #[trigger] iv[j] == items@[j]@,
            i <= items.len(),
            types_view(out@) == swagger_list(iv.take(i as int)),
        decreases items.len() - i,
    {
        proof {
            assert(iv.take(i + 1).drop_last() =~= iv.take(i as int));
            assert(iv.take(i + 1).last() == iv[i as int]);
            vstd::std_specs::vec::axiom_vec_index_decreases(*items, i as int);
        }
        let ghost o0 = out@;
        let t = json_schema_to_type(&items[i]);
        out.push(t);
        proof {
            lemma_types_view(out@);
            lemma_types_view(o0);
            assert(types_view(out@) =~= types_view(o0).push(t@));
        }
        i = i + 1;
    }
    proof {
        assert(iv.take(items.len() as int) =~= iv);
    }
    out
}

/// Whether an optional string is present and equal to `name`.
fn opt_is(t: &Option<String>, name: &str) -> (b: bool)
    ensures
        b == (crate::types::opt_str_view(*t) == Some(name@)),
{
    match t {
        Some(x) => str_eq(x.as_str(), name),
        None => false,
    }
}

// ---------------------------------------------------------------------------
// Validation rules and contracts of JSON schemas
// ---------------------------------------------------------------------------

/// The format a `format` name stands for, as a value.
pub open spec fn format_of(f: Seq<char>) -> (int, Seq<char>) {
    match known_format_spec(f) {
        Some(k) => format_view(k),
        None => (14, f),
    }
}

/// The 64-bit integer under `key`.
pub open spec fn u64_member(s: JsonView, key: Seq<char>) -> Option<u64> {
    match s.get(key) {
        Some(v) => v.as_u64(),
        None => None,
    }
}

/// [`u64_member`] as a `usize`.
pub open spec fn usize_member(s: JsonView, key: Seq<char>) -> Option<usize> {
    match u64_member(s, key) {
        Some(n) => Some(n as usize),
        None => None,
    }
}

/// The decimal text of the number under `key`.
pub open spec fn number_member(s: JsonView, key: Seq<char>) -> Option<Seq<char>> {
    match s.get(key) {
        Some(JsonView::Number(t)) => Some(t),
        _ => None,
    }
}

/// The boolean under `key`.
pub open spec fn bool_member(s: JsonView, key: Seq<char>) -> Option<bool> {
    match s.get(key) {
        Some(v) => v.as_bool(),
        None => None,
    }
}

/// The `rule` texts of a list of CEL validations, in order, skipping the
/// entries without one.
pub open spec fn cel_rules(items: Seq<JsonView>) -> Seq<Seq<char>>
    decreases items.len(),
{
    if items.len() == 0 {
        Seq::empty()
    } else {
        cel_rules(items.drop_last()) + match items.last().str_member("rule"@) {
            Some(r) => seq![r],
            None => Seq::empty(),
        }
    }
}

/// The CEL rules of a schema's `x-kubernetes-validations` (none without
/// the list).
pub open spec fn schema_cel_rules(s: JsonView) -> Seq<Seq<char>> {
    match crate::walkers::array_member(s, "x-kubernetes-validations"@) {
        Some(items) => cel_rules(items),
        None => Seq::empty(),
    }
}

/// The validation rules of a schema: each keyword present with a value of
/// the expected kind sets its rule (integers must be non-negative and fit
/// in 64 bits; numbers keep their decimal text).
pub open spec fn extracted_rules(s: JsonView) -> RulesView {
    RulesView {
        min_length: usize_member(s, "minLength"@),
        max_length: usize_member(s, "maxLength"@),
        pattern: s.str_member("pattern"@),
        format: match s.str_member("format"@) {
            Some(f) => Some(format_of(f)),
            None => None,
        },
        minimum: number_member(s, "minimum"@),
        maximum: number_member(s, "maximum"@),
        exclusive_minimum: number_member(s, "exclusiveMinimum"@),
        exclusive_maximum: number_member(s, "exclusiveMaximum"@),
        min_items: usize_member(s, "minItems"@),
        max_items: usize_member(s, "maxItems"@),
        unique_items: bool_member(s, "uniqueItems"@),
        min_properties: usize_member(s, "minProperties"@),
        max_properties: usize_member(s, "maxProperties"@),
        allowed_values: crate::walkers::array_member(s, "enum"@),
        k8s_int_or_string: bool_member(s, "x-kubernetes-int-or-string"@) == Some(true),
        k8s_preserve_unknown_fields: bool_member(s, "x-kubernetes-preserve-unknown-fields"@) == Some(true),
        k8s_embedded_resource: bool_member(s, "x-kubernetes-embedded-resource"@) == Some(true),
        k8s_cel_validations: schema_cel_rules(s),
    }
}

/// The keywords that carry validation.
pub open spec fn validation_keyword(k: Seq<char>) -> bool {
    ||| k == "minLength"@
    ||| k == "maxLength"@
    ||| k == "pattern"@
    ||| k == "format"@
    ||| k == "minimum"@
    ||| k == "maximum"@
    ||| k == "exclusiveMinimum"@
    ||| k == "exclusiveMaximum"@
    ||| k == "minItems"@
    ||| k == "maxItems"@
    ||| k == "uniqueItems"@
    ||| k == "minProperties"@
    ||| k == "maxProperties"@
    ||| k == "enum"@
    ||| k == "oneOf"@
    ||| k == "anyOf"@
    ||| k == "allOf"@
    ||| k == "not"@
    ||| k == "x-kubernetes-int-or-string"@
    ||| k == "x-kubernetes-preserve-unknown-fields"@
    ||| k == "x-kubernetes-embedded-resource"@
    ||| k == "x-kubernetes-validations"@
}

/// The Nickel check for a JSON type name.
pub open spec fn type_check_spec(t: Seq<char>) -> Seq<char> {
    if t == "string"@ {
        "std.is_string value"@
    } else if t == "integer"@ || t == "number"@ {
        "std.is_number value"@
    } else if t == "boolean"@ {
        "std.is_bool value"@
    } else if t == "array"@ {
        "std.is_array value"@
    } else if t == "object"@ {
        "std.is_record value"@
    } else if t == "null"@ {
        "value == null"@
    } else {
        "true"@
    }
}

/// The `type` names of the schemas that have one, in order.
pub open spec fn type_names(items: Seq<JsonView>) -> Seq<Seq<char>>
    decreases items.len(),
{
    if items.len() == 0 {
        Seq::empty()
    } else {
        type_names(items.drop_last()) + match items.last().str_member("type"@) {
            Some(t) => seq![t],
            None => Seq::empty(),
        }
    }
}

/// The Nickel literals of the schemas' `const` values that are strings
/// (quoted), numbers or booleans, in order.
pub open spec fn const_literals(items: Seq<JsonView>) -> Seq<Seq<char>>
    decreases items.len(),
{
    if items.len() == 0 {
        Seq::empty()
    } else {
        const_literals(items.drop_last()) + match items.last().get("const"@) {
            Some(JsonView::Str(t)) => seq!["\""@ + t + "\""@],
            Some(JsonView::Number(t)) => seq![t],
            Some(JsonView::Bool(b)) => seq![if b { "true"@ } else { "false"@ }],
            _ => Seq::empty(),
        }
    }
}

/// The type checks joined with ` || ` in parentheses.
pub open spec fn type_checks_expr(types: Seq<Seq<char>>) -> Seq<char> {
    "("@ + join_spec(types.map_values(|t: Seq<char>| type_check_spec(t)), " || "@) + ")"@
}

/// The check for a `oneOf`: a type test when every schema names its type,
/// else a membership test when every schema has a literal `const`, else
/// `true` with a note.
pub open spec fn one_of_expr(items: Seq<JsonView>) -> Seq<char> {
    let types = type_names(items);
    let consts = const_literals(items);
    if types.len() == items.len() && types.len() > 0 {
        type_checks_expr(types)
    } else if consts.len() == items.len() && consts.len() > 0 {
        "std.array.elem value ["@ + join_spec(consts, ", "@) + "]"@
    } else {
        "true # oneOf with "@ + decimal_spec(items.len()) + " schemas - complex validation not yet supported"@
    }
}

/// The check for an `anyOf`: a type test when every schema names its type,
/// else `true` with a note.
pub open spec fn any_of_expr(items: Seq<JsonView>) -> Seq<char> {
    let types = type_names(items);
    if types.len() == items.len() && types.len() > 0 {
        type_checks_expr(types)
    } else {
        "true # anyOf with "@ + decimal_spec(items.len()) + " schemas - complex validation not yet supported"@
    }
}

/// The check for an `allOf`: `true` with a note.
pub open spec fn all_of_expr(items: Seq<JsonView>) -> Seq<char> {
    "true # allOf with "@ + decimal_spec(items.len()) + " constraints - merged at parse time"@
}

/// The check for a `not`: the negated type test, an inequality with a
/// string or number `const`, else `true` with a note.
pub open spec fn not_expr(s: JsonView) -> Seq<char> {
    match s.str_member("type"@) {
        Some(t) => if type_check_spec(t) == "true"@ {
            "true # not constraint - type not recognized"@
        } else {
            "!("@ + type_check_spec(t) + ")"@
        },
        None => match s.get("const"@) {
            Some(JsonView::Str(c)) => "value != \""@ + c + "\""@,
            Some(JsonView::Number(c)) => "value != "@ + c,
            _ => "true # not constraint - complex validation not yet supported"@,
        },
    }
}

/// The contract rules of a schema: one each for a non-empty `oneOf`,
/// `anyOf` and `allOf` and for a `not`, in that order.
pub open spec fn contract_rules_spec(s: JsonView) -> Seq<ContractRuleView> {
    let one = match crate::walkers::array_member(s, "oneOf"@) {
        Some(items) => if items.len() > 0 {
            seq![
                ("oneOf"@, one_of_expr(items), Some("Value must match exactly one of the specified schemas"@), Some(
                    "Value does not match any of the allowed schemas"@,
                )),
            ]
        } else {
            Seq::empty()
        },
        None => Seq::empty(),
    };
    let any = match crate::walkers::array_member(s, "anyOf"@) {
        Some(items) => if items.len() > 0 {
            seq![
                ("anyOf"@, any_of_expr(items), Some("Value must match at least one of the specified schemas"@), Some(
                    "Value does not match any of the allowed schemas"@,
                )),
            ]
        } else {
            Seq::empty()
        },
        None => Seq::empty(),
    };
    let all = match crate::walkers::array_member(s, "allOf"@) {
        Some(items) => if items.len() > 0 {
            seq![
                ("allOf"@, all_of_expr(items), Some("Value must match all of the specified schemas"@), Some(
                    "Value does not match all required schemas"@,
                )),
            ]
        } else {
            Seq::empty()
        },
        None => Seq::empty(),
    };
    let not = match s.get("not"@) {
        Some(n) => seq![
            ("not"@, not_expr(n), Some("Value must not match the specified schema"@), Some(
                "Value matches a forbidden schema"@,
            )),
        ],
        None => Seq::empty(),
    };
    one + any + all + not
}

fn usize_of(schema: &JsonValue, key: &str) -> (r: Option<usize>)
    ensures
        r == usize_member(schema@, key@),
{
    match schema.get(key) {
        Some(v) => match v.as_u64() {
            Some(n) => Some(n as usize),
            None => None,
        },
        None => None,
    }
}

fn number_of(schema: &JsonValue, key: &str) -> (r: Option<String>)
    ensures
        crate::types::opt_str_view(r) == number_member(schema@, key@),
{
    match schema.get(key) {
        Some(JsonValue::Number(t)) => Some(t.clone()),
        _ => None,
    }
}

fn bool_of(schema: &JsonValue, key: &str) -> (r: Option<bool>)
    ensures
        r == bool_member(schema@, key@),
{
    match schema.get(key) {
        Some(v) => v.as_bool(),
        None => None,
    }
}

fn array_of<'a>(schema: &'a JsonValue, key: &str) -> (r: Option<&'a Vec<JsonValue>>)
    ensures
        match r {
            Some(v) => crate::walkers::array_member(schema@, key@) == Some(json_seq_view(v@)),
            None => crate::walkers::array_member(schema@, key@) is None,
        },
{
    match schema.get(key) {
        Some(v) => v.as_array(),
        None => None,
    }
}

/// The Nickel check for a JSON type name.
fn type_check(t: &str) -> (r: String)
    ensures
        r@ == type_check_spec(t@),
{
    if str_eq(t, "string") {
        to_owned_string("std.is_string value")
    } else if str_eq(t, "integer") || str_eq(t, "number") {
        to_owned_string("std.is_number value")
    } else if str_eq(t, "boolean") {
        to_owned_string("std.is_bool value")
    } else if str_eq(t, "array") {
        to_owned_string("std.is_array value")
    } else if str_eq(t, "object") {
        to_owned_string("std.is_record value")
    } else if str_eq(t, "null") {
        to_owned_string("value == null")
    } else {
        to_owned_string("true")
    }
}

/// The type names of a list of schemas and their checks.
fn type_names_of(items: &Vec<JsonValue>) -> (r: (Vec<String>, Vec<String>))
    ensures
        views(r.0@) == type_names(json_seq_view(items@)),
        views(r.1@) == type_names(json_seq_view(items@)).map_values(|t: Seq<char>| type_check_spec(t)),
{
    let ghost iv = json_seq_view(items@);
    proof {
        lemma_json_seq_view(items@);
        assert(iv.take(0) =~= Seq::<JsonView>::empty());
    }
    let mut names: Vec<String> = Vec::new();
    let mut checks: Vec<String> = Vec::new();
    let mut i: usize = 0;
    while i < items.len()
        invariant
            iv == json_seq_view(items@),
            iv.len() == items.len(),
            forall|j: int| 0 <= j < items.len() ==> #[trigger] iv[j] == items@[j]@,
            i <= items.len(),
            views(names@) == type_names(iv.take(i as int)),
            views(checks@) == type_names(iv.take(i as int)).map_values(|t: Seq<char>| type_check_spec(t)),
        decreases items.len() - i,
    {
        proof {
            assert(iv.take(i + 1).drop_last() =~= iv.take(i as int));
            assert(iv.take(i + 1).last() == iv[i as int]);
        }
        let ghost n0 = views(names@);
        let ghost c0 = views(checks@);
        match items[i].str_member("type") {
            Some(t) => {
                let c = type_check(t.as_str());
                names.push(t);
                checks.push(c);
                proof {
                    assert(views(names@) =~= n0 + seq![names@.last()@]);
                    assert(views(checks@) =~= c0 + seq![c@]);
                    assert(type_names(iv.take(i + 1)).map_values(|t: Seq<char>| type_check_spec(t)) =~= c0 + seq![c@]);
                }
            },
            None => {
                assert(views(names@) =~= n0 + Seq::<Seq<char>>::empty());
                assert(type_names(iv.take(i + 1)) =~= type_names(iv.take(i as int)));
            },
        }
        i = i + 1;
    }
    proof {
        assert(iv.take(items.len() as int) =~= iv);
    }
    (names, checks)
}

/// The literals of the schemas' `const` values.
fn const_literals_of(items: &Vec<JsonValue>) -> (r: Vec<String>)
    ensures
        views(r@) == const_literals(json_seq_view(items@)),
{
    let ghost iv = json_seq_view(items@);
    proof {
        lemma_json_seq_view(items@);
        assert(iv.take(0) =~= Seq::<JsonView>::empty());
    }
    let mut out: Vec<String> = Vec::new();
    let mut i: usize = 0;
    while i < items.len()
        invariant
            iv == json_seq_view(items@),
            iv.len() == items.len(),
            forall|j: int| 0 <= j < items.len() ==> #[trigger] iv[j] == items@[j]@,
            i <= items.len(),
            views(out@) == const_literals(iv.take(i as int)),
        decreases items.len() - i,
    {
        proof {
            assert(iv.take(i + 1).drop_last() =~= iv.take(i as int));
            assert(iv.take(i + 1).last() == iv[i as int]);
        }
        let ghost o0 = views(out@);
        let lit: Option<String> = match items[i].get("const") {
            Some(JsonValue::Str(t)) => {
                let mut q = String::new();
                push_char(&mut q, '"');
                q.append(t.as_str());
                push_char(&mut q, '"');
                proof {
                    reveal_strlit("\"");
                    assert(q@ =~= "\""@ + t@ + "\""@);
                }
                Some(q)
            },
            Some(JsonValue::Number(t)) => Some(t.clone()),
            Some(JsonValue::Bool(b)) => {
                if *b {
                    Some(to_owned_string("true"))
                } else {
                    Some(to_owned_string("false"))
                }
            },
            _ => None,
        };
        proof {
            let tail = match iv[i as int].get("const"@) {
                Some(JsonView::Str(t)) => seq!["\""@ + t + "\""@],
                Some(JsonView::Number(t)) => seq![t],
                Some(JsonView::Bool(b)) => seq![if b { "true"@ } else { "false"@ }],
                _ => Seq::<Seq<char>>::empty(),
            };
            assert(const_literals(iv.take(i + 1)) == const_literals(iv.take(i as int)) + tail);
            if lit is Some {
                assert(tail == seq![lit->0@]);
            } else {
                assert(tail.len() == 0);
            }
        }
        match lit {
            Some(l) => {
                out.push(l);
                proof {
                    assert(views(out@) =~= o0 + seq![out@.last()@]);
                }
            },
            None => {
                assert(views(out@) =~= o0 + Seq::<Seq<char>>::empty());
            },
        }
        i = i + 1;
    }
    proof {
        assert(iv.take(items.len() as int) =~= iv);
    }
    out
}

impl ValidationExtractor {
    /// The validation rules of a JSON schema.
    pub fn extract_validation_rules(schema: &JsonValue) -> (r: ValidationRules)
        ensures
            r@ == extracted_rules(schema@),
    {
        let mut rules = ValidationRules::default();
        rules.min_length = usize_of(schema, "minLength");
        rules.max_length = usize_of(schema, "maxLength");
        rules.pattern = schema.str_member("pattern");
        rules.format = match schema.str_member("format") {
            Some(f) => Self::parse_string_format(f.as_str()),
            None => None,
        };
        rules.minimum = number_of(schema, "minimum");
        rules.maximum = number_of(schema, "maximum");
        rules.exclusive_minimum = number_of(schema, "exclusiveMinimum");
        rules.exclusive_maximum = number_of(schema, "exclusiveMaximum");
        rules.min_items = usize_of(schema, "minItems");
        rules.max_items = usize_of(schema, "maxItems");
        rules.unique_items = bool_of(schema, "uniqueItems");
        rules.min_properties = usize_of(schema, "minProperties");
        rules.max_properties = usize_of(schema, "maxProperties");
        rules.allowed_values = match array_of(schema, "enum") {
            Some(items) => {
                let mut out: Vec<JsonValue> = Vec::new();
                let mut i: usize = 0;
                while i < items.len()
                    invariant
                        i <= items.len(),
                        json_seq_view(out@) == json_seq_view(items@.take(i as int)),
                    decreases items.len() - i,
                {
                    let x = items[i].duplicate();
                    let ghost o0 = out@;
                    out.push(x);
                    proof {
                        assert(out@.drop_last() =~= o0);
                        assert(items@.take(i + 1).drop_last() =~= items@.take(i as int));
                    }
                    i = i + 1;
                }
                assert(items@.take(items.len() as int) =~= items@);
                Some(out)
            },
            None => None,
        };
        Self::extract_k8s_extensions(&mut rules, schema);
        rules
    }

    /// Set the Kubernetes extensions of a schema on `rules`: each boolean
    /// extension present replaces its flag, and the CEL rules of
    /// `x-kubernetes-validations` are appended.
    pub fn extract_k8s_extensions(rules: &mut ValidationRules, schema: &JsonValue)
        ensures
            final(rules)@ == (RulesView {
                k8s_int_or_string: match bool_member(schema@, "x-kubernetes-int-or-string"@) {
                    Some(b) => b,
                    None => old(rules)@.k8s_int_or_string,
                },
                k8s_preserve_unknown_fields: match bool_member(schema@, "x-kubernetes-preserve-unknown-fields"@) {
                    Some(b) => b,
                    None => old(rules)@.k8s_preserve_unknown_fields,
                },
                k8s_embedded_resource: match bool_member(schema@, "x-kubernetes-embedded-resource"@) {
                    Some(b) => b,
                    None => old(rules)@.k8s_embedded_resource,
                },
                k8s_cel_validations: old(rules)@.k8s_cel_validations + schema_cel_rules(schema@),
                ..old(rules)@
            }),
    {
        if let Some(b) = bool_of(schema, "x-kubernetes-int-or-string") {
            rules.k8s_int_or_string = b;
        }
        if let Some(b) = bool_of(schema, "x-kubernetes-preserve-unknown-fields") {
            rules.k8s_preserve_unknown_fields = b;
        }
        if let Some(b) = bool_of(schema, "x-kubernetes-embedded-resource") {
            rules.k8s_embedded_resource = b;
        }
        let ghost c0 = views(rules.k8s_cel_validations@);
        let ghost r1 = rules@;
        if let Some(validations) = array_of(schema, "x-kubernetes-validations") {
            let ghost iv = json_seq_view(validations@);
            proof {
                lemma_json_seq_view(validations@);
                assert(iv.take(0) =~= Seq::<JsonView>::empty());
                assert(c0 + cel_rules(iv.take(0)) =~= c0);
            }
            let mut i: usize = 0;
            while i < validations.len()
                invariant
                    iv == json_seq_view(validations@),
                    iv.len() == validations.len(),
                    forall|j: int| 0 <= j < validations.len() ==> #[trigger] iv[j] == validations@[j]@,
                    i <= validations.len(),
                    views(rules.k8s_cel_validations@) == c0 + cel_rules(iv.take(i as int)),
                    rules@ == (RulesView { k8s_cel_validations: c0 + cel_rules(iv.take(i as int)), ..r1 }),
                decreases validations.len() - i,
            {
                proof {
                    assert(iv.take(i + 1).drop_last() =~= iv.take(i as int));
                    assert(iv.take(i + 1).last() == iv[i as int]);
                }
                let ghost v0 = views(rules.k8s_cel_validations@);
                match validations[i].str_member("rule") {
                    Some(r) => {
                        rules.k8s_cel_validations.push(r);
                        proof {
                            assert(views(rules.k8s_cel_validations@) =~= v0.push(rules.k8s_cel_validations@.last()@));
                            assert(c0 + cel_rules(iv.take(i + 1)) =~= v0 + seq![rules.k8s_cel_validations@.last()@]);
                        }
                    },
                    None => {
                        assert(c0 + cel_rules(iv.take(i + 1)) =~= v0);
                    },
                }
                proof {
                    assert(views(rules.k8s_cel_validations@) =~= c0 + cel_rules(iv.take(i + 1)));
                    assert(rules@ == (RulesView { k8s_cel_validations: c0 + cel_rules(iv.take(i + 1)), ..r1 }));
                }
                i = i + 1;
            }
            proof {
                assert(iv.take(validations.len() as int) =~= iv);
            }
        } else {
            assert(c0 + schema_cel_rules(schema@) =~= c0);
        }
    }

    /// Whether the schema is an object with at least one validation keyword.
    pub fn has_validation_rules(schema: &JsonValue) -> (r: bool)
        ensures
            r == (schema@ is Object && exists|k: Seq<char>| validation_keyword(k) && #[trigger] schema@.get(k) is Some),
    {
        if schema.as_object().is_none() {
            return false;
        }
        let keys = [
            "minLength",
            "maxLength",
            "pattern",
            "format",
            "minimum",
            "maximum",
            "exclusiveMinimum",
            "exclusiveMaximum",
            "minItems",
            "maxItems",
            "uniqueItems",
            "minProperties",
            "maxProperties",
            "enum",
            "oneOf",
            "anyOf",
            "allOf",
            "not",
            "x-kubernetes-int-or-string",
            "x-kubernetes-preserve-unknown-fields",
            "x-kubernetes-embedded-resource",
            "x-kubernetes-validations",
        ];
        let ghost ks = keys@.map_values(|k: &str| k@);
        assert forall|k: Seq<char>| validation_keyword(k) <==> ks.contains(k) by {
            if validation_keyword(k) {
                if k == "minLength"@ { assert(ks[0] == k); }
                if k == "maxLength"@ { assert(ks[1] == k); }
                if k == "pattern"@ { assert(ks[2] == k); }
                if k == "format"@ { assert(ks[3] == k); }
                if k == "minimum"@ { assert(ks[4] == k); }
                if k == "maximum"@ { assert(ks[5] == k); }
                if k == "exclusiveMinimum"@ { assert(ks[6] == k); }
                if k == "exclusiveMaximum"@ { assert(ks[7] == k); }
                if k == "minItems"@ { assert(ks[8] == k); }
                if k == "maxItems"@ { assert(ks[9] == k); }
                if k == "uniqueItems"@ { assert(ks[10] == k); }
                if k == "minProperties"@ { assert(ks[11] == k); }
                if k == "maxProperties"@ { assert(ks[12] == k); }
                if k == "enum"@ { assert(ks[13] == k); }
                if k == "oneOf"@ { assert(ks[14] == k); }
                if k == "anyOf"@ { assert(ks[15] == k); }
                if k == "allOf"@ { assert(ks[16] == k); }
                if k == "not"@ { assert(ks[17] == k); }
                if k == "x-kubernetes-int-or-string"@ { assert(ks[18] == k); }
                if k == "x-kubernetes-preserve-unknown-fields"@ { assert(ks[19] == k); }
                if k == "x-kubernetes-embedded-resource"@ { assert(ks[20] == k); }
                if k == "x-kubernetes-validations"@ { assert(ks[21] == k); }
            }
        }
        let mut i: usize = 0;
        while i < keys.len()
            invariant
                ks == keys@.map_values(|k: &str| k@),
                i <= keys.len(),
                forall|k: Seq<char>| validation_keyword(k) <==> ks.contains(k),
                forall|j: int| 0 <= j < i ==> #[trigger] schema@.get(ks[j]) is None,
            decreases keys.len() - i,
        {
            if schema.get(keys[i]).is_some() {
                assert(validation_keyword(ks[i as int]));
                return true;
            }
            i = i + 1;
        }
        assert forall|k: Seq<char>| validation_keyword(k) implies #[trigger] schema@.get(k) is None by {
            let j = choose|j: int| 0 <= j < ks.len() && ks[j] == k;
        }
        false
    }

    /// The contract rules of a schema's combinators: one each for a
    /// non-empty `oneOf`, `anyOf` and `allOf` and for a `not`.
    pub fn extract_contract_rules(schema: &JsonValue) -> (r: Vec<ContractRule>)
        ensures
            rule_views(r@) == contract_rules_spec(schema@),
    {
        let mut contracts: Vec<ContractRule> = Vec::new();
        let ghost s = schema@;
        let mut one: Vec<ContractRule> = Vec::new();
        if let Some(items) = array_of(schema, "oneOf") {
            if items.len() > 0 {
                one.push(ContractRule {
                    name: to_owned_string("oneOf"),
                    expression: Self::generate_one_of_expression(items),
                    description: Some(to_owned_string("Value must match exactly one of the specified schemas")),
                    error_message: Some(to_owned_string("Value does not match any of the allowed schemas")),
                });
            }
        }
        let mut any: Vec<ContractRule> = Vec::new();
        if let Some(items) = array_of(schema, "anyOf") {
            if items.len() > 0 {
                any.push(ContractRule {
                    name: to_owned_string("anyOf"),
                    expression: Self::generate_any_of_expression(items),
                    description: Some(to_owned_string("Value must match at least one of the specified schemas")),
                    error_message: Some(to_owned_string("Value does not match any of the allowed schemas")),
                });
            }
        }
        let mut all: Vec<ContractRule> = Vec::new();
        if let Some(items) = array_of(schema, "allOf") {
            if items.len() > 0 {
                all.push(ContractRule {
                    name: to_owned_string("allOf"),
                    expression: Self::generate_all_of_expression(items),
                    description: Some(to_owned_string("Value must match all of the specified schemas")),
                    error_message: Some(to_owned_string("Value does not match all required schemas")),
                });
            }
        }
        let mut not: Vec<ContractRule> = Vec::new();
        if let Some(n) = schema.get("not") {
            not.push(ContractRule {
                name: to_owned_string("not"),
                expression: Self::generate_not_expression(n),
                description: Some(to_owned_string("Value must not match the specified schema")),
                error_message: Some(to_owned_string("Value matches a forbidden schema")),
            });
        }
        let ghost (v1, v2, v3, v4) = (rule_views(one@), rule_views(any@), rule_views(all@), rule_views(not@));
        contracts.append(&mut one);
        contracts.append(&mut any);
        contracts.append(&mut all);
        contracts.append(&mut not);
        proof {
            assert(rule_views(contracts@) =~= v1 + v2 + v3 + v4);
        }
        contracts
    }

    /// The check for a `oneOf`.
    pub fn generate_one_of_expression(schemas: &Vec<JsonValue>) -> (r: String)
        ensures
            r@ == one_of_expr(json_seq_view(schemas@)),
    {
        proof {
            lemma_json_seq_view(schemas@);
        }
        let (types, checks) = type_names_of(schemas);
        if types.len() == schemas.len() && types.len() > 0 {
            let mut r = to_owned_string("(");
            let j = join(&checks, " || ");
            r.append(j.as_str());
            r.append(")");
            return r;
        }
        let consts = const_literals_of(schemas);
        if consts.len() == schemas.len() && consts.len() > 0 {
            let mut r = to_owned_string("std.array.elem value [");
            let j = join(&consts, ", ");
            r.append(j.as_str());
            r.append("]");
            return r;
        }
        let mut r = to_owned_string("true # oneOf with ");
        let n = decimal(schemas.len());
        r.append(n.as_str());
        r.append(" schemas - complex validation not yet supported");
        r
    }

    /// The check for an `anyOf`.
    pub fn generate_any_of_expression(schemas: &Vec<JsonValue>) -> (r: String)
        ensures
            r@ == any_of_expr(json_seq_view(schemas@)),
    {
        proof {
            lemma_json_seq_view(schemas@);
        }
        let (types, checks) = type_names_of(schemas);
        if types.len() == schemas.len() && types.len() > 0 {
            let mut r = to_owned_string("(");
            let j = join(&checks, " || ");
            r.append(j.as_str());
            r.append(")");
            return r;
        }
        let mut r = to_owned_string("true # anyOf with ");
        let n = decimal(schemas.len());
        r.append(n.as_str());
        r.append(" schemas - complex validation not yet supported");
        r
    }

    /// The check for an `allOf`.
    pub fn generate_all_of_expression(schemas: &Vec<JsonValue>) -> (r: String)
        ensures
            r@ == all_of_expr(json_seq_view(schemas@)),
    {
        proof {
            lemma_json_seq_view(schemas@);
        }
        let mut r = to_owned_string("true # allOf with ");
        let n = decimal(schemas.len());
        r.append(n.as_str());
        r.append(" constraints - merged at parse time");
        r
    }

    /// The check for a `not`.
    pub fn generate_not_expression(schema: &JsonValue) -> (r: String)
        ensures
            r@ == not_expr(schema@),
    {
        if let Some(t) = schema.str_member("type") {
            let check = type_check(t.as_str());
            if str_eq(check.as_str(), "true") {
                return to_owned_string("true # not constraint - type not recognized");
            }
            let mut r = to_owned_string("!(");
            r.append(check.as_str());
            r.append(")");
            return r;
        }
        match schema.get("const") {
            Some(JsonValue::Str(c)) => {
                let mut r = to_owned_string("value != ");
                push_char(&mut r, '"');
                r.append(c.as_str());
                push_char(&mut r, '"');
                proof {
                    reveal_strlit("\"");
                    reveal_strlit("value != ");
                    reveal_strlit("value != \"");
                    assert(r@ =~= "value != \""@ + c@ + "\""@);
                }
                r
            },
            Some(JsonValue::Number(c)) => {
                let mut r = to_owned_string("value != ");
                r.append(c.as_str());
                r
            },
            _ => to_owned_string("true # not constraint - complex validation not yet supported"),
        }
    }
}

// ---------------------------------------------------------------------------
// Swagger documents
// ---------------------------------------------------------------------------

/// A type named in a module group.
pub type NamedType = (Seq<char>, TypeView);

/// Where the group of module `m` stands, if there is one.
pub open spec fn group_index(groups: Seq<(Seq<char>, Seq<NamedType>)>, m: Seq<char>) -> Option<int>
    decreases groups.len(),
{
    if groups.len() == 0 {
        None
    } else {
        match group_index(groups.drop_last(), m) {
            Some(i) => Some(i),
            None => if groups.last().0 == m {
                Some(groups.len() - 1)
            } else {
                None
            },
        }
    }
}

/// The definitions grouped by module: each module in the order of its first
/// definition, its types in the order of the definitions.
pub open spec fn group_definitions(defs: Seq<(Seq<char>, JsonView)>) -> Seq<(Seq<char>, Seq<NamedType>)>
    decreases defs.len(),
{
    if defs.len() == 0 {
        Seq::empty()
    } else {
        let groups = group_definitions(defs.drop_last());
        let (full, schema) = defs.last();
        let (m, n) = k8s_type_name_spec(full);
        let e = (n, swagger_type(schema));
        match group_index(groups, m) {
            Some(i) => groups.update(i, (m, groups[i].1.push(e))),
            None => groups.push((m, seq![e])),
        }
    }
}

/// The groups of a Swagger document's definitions (none without them).
pub open spec fn swagger_groups(json: JsonView) -> Seq<(Seq<char>, Seq<NamedType>)> {
    match json.get("definitions"@) {
        Some(JsonView::Object(defs)) => group_definitions(defs),
        _ => Seq::empty(),
    }
}

/// The modules hold the groups: one module per group, in order, with the
/// group's types in order.
pub open spec fn modules_hold(modules: Seq<crate::ir::Module>, groups: Seq<(Seq<char>, Seq<NamedType>)>) -> bool {
    &&& modules.len() == groups.len()
    &&& forall|k: int|
        0 <= k < groups.len() ==> {
            &&& (#[trigger] modules[k]).name@ == groups[k].0
            &&& modules[k].types@.len() == groups[k].1.len()
            &&& forall|t: int|
                0 <= t < groups[k].1.len() ==> (#[trigger] modules[k].types@[t]).name@ == groups[k].1[t].0
                    && modules[k].types@[t].ty@ == groups[k].1[t].1
        }
}

/// Find the group of module `m`.
fn find_group(groups: &Vec<(String, Vec<(String, Type)>)>, m: &str) -> (r: Option<usize>)
    ensures
        match r {
            Some(i) => i < groups.len() && group_index(group_views(groups@), m@) == Some(i as int),
            None => group_index(group_views(groups@), m@) is None,
        },
{
    let ghost gv = group_views(groups@);
    proof {
        lemma_group_views(groups@);
    }
    let mut i: usize = 0;
    while i < groups.len()
        invariant
            gv == group_views(groups@),
            gv.len() == groups.len(),
            forall|j: int| 0 <= j < groups.len() ==> #[trigger] gv[j].0 == groups@[j].0@,
            i <= groups.len(),
            group_index(gv.take(i as int), m@) is None,
        decreases groups.len() - i,
    {
        proof {
            assert(gv.take(i + 1).drop_last() =~= gv.take(i as int));
        }
        if str_eq(groups[i].0.as_str(), m) {
            proof {
                assert(group_index(gv.take(i + 1), m@) == Some(i as int));
                lemma_group_index_prefix(gv, i + 1, m@);
            }
            return Some(i);
        }
        i = i + 1;
    }
    proof {
        assert(gv.take(groups.len() as int) =~= gv);
    }
    None
}

/// The value of a module group.
pub open spec fn group_views(groups: Seq<(String, Vec<(String, Type)>)>) -> Seq<(Seq<char>, Seq<NamedType>)> {
    groups.map_values(|g: (String, Vec<(String, Type)>)| (g.0@, named_views(g.1@)))
}

/// The values of named types.
pub open spec fn named_views(ts: Seq<(String, Type)>) -> Seq<NamedType> {
    ts.map_values(|t: (String, Type)| (t.0@, t.1@))
}

proof fn lemma_group_views(groups: Seq<(String, Vec<(String, Type)>)>)
    ensures
        group_views(groups).len() == groups.len(),
        forall|j: int| 0 <= j < groups.len() ==> #[trigger] group_views(groups)[j] == (groups[j].0@, named_views(groups[j].1@)),
{
}

/// A group found has the module's name.
proof fn lemma_group_index_found(gv: Seq<(Seq<char>, Seq<NamedType>)>, m: Seq<char>)
    ensures
        match group_index(gv, m) {
            Some(i) => 0 <= i < gv.len() && gv[i].0 == m,
            None => true,
        },
    decreases gv.len(),
{
    if gv.len() > 0 {
        lemma_group_index_found(gv.drop_last(), m);
    }
}

/// A group found in a prefix is found in the whole.
proof fn lemma_group_index_prefix(gv: Seq<(Seq<char>, Seq<NamedType>)>, k: int, m: Seq<char>)
    requires
        0 <= k <= gv.len(),
        group_index(gv.take(k), m) is Some,
    ensures
        group_index(gv, m) == group_index(gv.take(k), m),
    decreases gv.len() - k,
{
    if k < gv.len() {
        assert(gv.take(k + 1).drop_last() =~= gv.take(k));
        lemma_group_index_prefix(gv, k + 1, m);
    } else {
        assert(gv.take(k) =~= gv);
    }
}

/// The representation of a Swagger 2.0 document: its definitions converted
/// and grouped into modules by their Kubernetes-style names, each module in
/// the order of its first definition. A document that is not Swagger 2.0 is
/// refused.
pub fn parse_swagger_json_lenient(json: &JsonValue) -> (r: Result<crate::ir::IR, crate::error::ParserError>)
    ensures
        match r {
            Ok(ir) => json@.str_member("swagger"@) == Some("2.0"@) && modules_hold(ir.modules@, swagger_groups(json@)),
            Err(e) => json@.str_member("swagger"@) != Some("2.0"@) && (e matches crate::error::ParserError::InvalidInput(m)
                && m@ == "Not a Swagger 2.0 document"@),
        },
{
    let is_v2 = match json.str_member("swagger") {
        Some(v) => str_eq(v.as_str(), "2.0"),
        None => false,
    };
    if !is_v2 {
        return Err(crate::error::ParserError::InvalidInput(to_owned_string("Not a Swagger 2.0 document")));
    }
    let mut groups: Vec<(String, Vec<(String, Type)>)> = Vec::new();
    let defs = match json.get("definitions") {
        Some(d) => d.as_object(),
        None => None,
    };
    if let Some(defs) = defs {
        let ghost dv = json_entries_view(defs@);
        proof {
            lemma_json_entries_view(defs@);
            assert(dv.take(0) =~= Seq::<(Seq<char>, JsonView)>::empty());
            assert(group_views(groups@) =~= Seq::<(Seq<char>, Seq<NamedType>)>::empty());
        }
        let mut i: usize = 0;
        while i < defs.len()
            invariant
                dv == json_entries_view(defs@),
                dv.len() == defs.len(),
                forall|j: int| 0 <= j < defs.len() ==> #[trigger] dv[j] == (defs@[j].0@, defs@[j].1@),
                i <= defs.len(),
                group_views(groups@) == group_definitions(dv.take(i as int)),
            decreases defs.len() - i,
        {
            proof {
                assert(dv.take(i + 1).drop_last() =~= dv.take(i as int));
                assert(dv.take(i + 1).last() == dv[i as int]);
                lemma_group_views(groups@);
            }
            let ty = json_schema_to_type(&defs[i].1);
            let (m, n) = parse_k8s_type_name(defs[i].0.as_str());
            let ghost e = (n@, ty@);
            let ghost g0 = group_views(groups@);
            match find_group(&groups, m.as_str()) {
                Some(k) => {
                    let ghost old_groups = groups@;
                    let mut entry = groups.remove(k);
                    let ghost t0 = entry.1@;
                    entry.1.push((n, ty));
                    groups.insert(k, entry);
                    proof {
                        lemma_group_views(groups@);
                        lemma_group_views(old_groups);
                        lemma_group_index_found(g0, m@);
                        assert(groups@ =~= old_groups.update(k as int, groups@[k as int]));
                        assert(named_views(groups@[k as int].1@) =~= named_views(t0).push(e));
                        assert(group_views(groups@) =~= g0.update(k as int, (m@, g0[k as int].1.push(e))));
                    }
                },
                None => {
                    let mut ts: Vec<(String, Type)> = Vec::new();
                    ts.push((n, ty));
                    let ghost mv = m@;
                    groups.push((m, ts));
                    proof {
                        lemma_group_views(groups@);
                        assert(named_views(groups@.last().1@) =~= seq![e]);
                        assert(group_views(groups@) =~= g0.push((mv, seq![e])));
                    }
                },
            }
            i = i + 1;
        }
        proof {
            assert(dv.take(defs.len() as int) =~= dv);
        }
    } else {
        assert(group_views(groups@) =~= Seq::<(Seq<char>, Seq<NamedType>)>::empty());
    }
    let ghost gv = group_views(groups@);
    let mut builder = crate::ir::IRBuilder::new();
    let mut k: usize = 0;
    proof {
        lemma_group_views(groups@);
    }
    while k < groups.len()
        invariant
            gv == group_views(groups@),
            gv.len() == groups.len(),
            forall|j: int| 0 <= j < groups.len() ==> #[trigger] gv[j] == (groups@[j].0@, named_views(groups@[j].1@)),
            k <= groups.len(),
            k == 0 ==> builder.current() is None,
            k > 0 ==> (builder.current() matches Some(cur) && modules_hold(builder.finished().push(cur), gv.take(k as int))),
            k == 0 ==> builder.finished().len() == 0,
        decreases groups.len() - k,
    {
        let ghost before = match builder.current() {
            Some(cur) => builder.finished().push(cur),
            None => builder.finished(),
        };
        builder = builder.module(groups[k].0.as_str());
        assert(builder.finished() == before);
        let ghost named = named_views(groups@[k as int].1@);
        let mut t: usize = 0;
        while t < groups[k].1.len()
            invariant
                k < groups.len(),
                named == named_views(groups@[k as int].1@),
                t <= groups@[k as int].1.len(),
                builder.finished() == before,
                builder.current() matches Some(cur) && {
                    &&& cur.name@ == groups@[k as int].0@
                    &&& cur.types@.len() == t
                    &&& forall|j: int| 0 <= j < t ==> (#[trigger] cur.types@[j]).name@ == named[j].0
                        && cur.types@[j].ty@ == named[j].1
                },
            decreases groups@[k as int].1.len() - t,
        {
            let ghost c0 = builder.current()->0;
            let ty = groups[k].1[t].1.duplicate();
            builder = builder.add_type(groups[k].1[t].0.as_str(), ty);
            proof {
                let c2 = builder.current()->0;
                assert forall|j: int| 0 <= j < t + 1 implies (#[trigger] c2.types@[j]).name@ == named[j].0
                    && c2.types@[j].ty@ == named[j].1 by {
                    if j < t {
                        assert(c2.types@[j] == c2.types@.take(c0.types@.len() as int)[j]);
                    }
                }
            }
            t = t + 1;
        }
        proof {
            let cur = builder.current()->0;
            let ms = builder.finished().push(cur);
            assert(gv.take(k + 1).drop_last() =~= gv.take(k as int));
            assert forall|q: int| 0 <= q < k + 1 implies {
                &&& (#[trigger] ms[q]).name@ == gv.take(k + 1)[q].0
                &&& ms[q].types@.len() == gv.take(k + 1)[q].1.len()
                &&& forall|u: int|
                    0 <= u < gv.take(k + 1)[q].1.len() ==> (#[trigger] ms[q].types@[u]).name@ == gv.take(k + 1)[q].1[u].0
                        && ms[q].types@[u].ty@ == gv.take(k + 1)[q].1[u].1
            } by {
                if q < k {
                    assert(ms[q] == before[q]);
                    assert(gv.take(k + 1)[q] == gv.take(k as int)[q]);
                } else {
                    assert(ms[q] == cur);
                    assert(gv.take(k + 1)[q] == gv[k as int]);
                }
            }
        }
        k = k + 1;
    }
    proof {
        assert(gv.take(groups.len() as int) =~= gv);
    }
    let ir = builder.build();
    Ok(ir)
}

/// Each number bound of the extracted rules is the number written under
/// its own keyword (its decimal text), absent when that keyword holds no
/// number: `minimum`, `maximum`, `exclusiveMinimum` and `exclusiveMaximum`
/// each set only their own bound.
pub proof fn law_number_bounds_read_their_own_keyword(s: JsonView)
    ensures
        extracted_rules(s).minimum == (match s.get("minimum"@) {
            Some(JsonView::Number(t)) => Some(t),
            _ => None,
        }),
        extracted_rules(s).maximum == (match s.get("maximum"@) {
            Some(JsonView::Number(t)) => Some(t),
            _ => None,
        }),
        extracted_rules(s).exclusive_minimum == (match s.get("exclusiveMinimum"@) {
            Some(JsonView::Number(t)) => Some(t),
            _ => None,
        }),
        extracted_rules(s).exclusive_maximum == (match s.get("exclusiveMaximum"@) {
            Some(JsonView::Number(t)) => Some(t),
            _ => None,
        }),
{
}

/// Changing or removing the lower bounds of a schema leaves its extracted
/// upper bounds as they are: two schemas that agree on `maximum` and
/// `exclusiveMaximum` extract the same upper bounds.
pub proof fn law_upper_bounds_ignore_lower_bounds(a: JsonView, b: JsonView)
    requires
        a.get("maximum"@) == b.get("maximum"@),
        a.get("exclusiveMaximum"@) == b.get("exclusiveMaximum"@),
    ensures
        extracted_rules(a).maximum == extracted_rules(b).maximum,
        extracted_rules(a).exclusive_maximum == extracted_rules(b).exclusive_maximum,
{
}

/// Each extracted rule is read from its own keyword alone: two schemas
/// that agree on a keyword extract the same rule for it, whatever else
/// they hold.
pub proof fn law_each_rule_reads_only_its_keyword(a: JsonView, b: JsonView)
    ensures
        a.get("minLength"@) == b.get("minLength"@) ==> extracted_rules(a).min_length == extracted_rules(b).min_length,
        a.get("maxLength"@) == b.get("maxLength"@) ==> extracted_rules(a).max_length == extracted_rules(b).max_length,
        a.get("pattern"@) == b.get("pattern"@) ==> extracted_rules(a).pattern == extracted_rules(b).pattern,
        a.get("format"@) == b.get("format"@) ==> extracted_rules(a).format == extracted_rules(b).format,
        a.get("minimum"@) == b.get("minimum"@) ==> extracted_rules(a).minimum == extracted_rules(b).minimum,
        a.get("maximum"@) == b.get("maximum"@) ==> extracted_rules(a).maximum == extracted_rules(b).maximum,
        a.get("exclusiveMinimum"@) == b.get("exclusiveMinimum"@) ==> extracted_rules(a).exclusive_minimum == extracted_rules(b).exclusive_minimum,
        a.get("exclusiveMaximum"@) == b.get("exclusiveMaximum"@) ==> extracted_rules(a).exclusive_maximum == extracted_rules(b).exclusive_maximum,
        a.get("minItems"@) == b.get("minItems"@) ==> extracted_rules(a).min_items == extracted_rules(b).min_items,
        a.get("maxItems"@) == b.get("maxItems"@) ==> extracted_rules(a).max_items == extracted_rules(b).max_items,
        a.get("uniqueItems"@) == b.get("uniqueItems"@) ==> extracted_rules(a).unique_items == extracted_rules(b).unique_items,
        a.get("minProperties"@) == b.get("minProperties"@) ==> extracted_rules(a).min_properties == extracted_rules(b).min_properties,
        a.get("maxProperties"@) == b.get("maxProperties"@) ==> extracted_rules(a).max_properties == extracted_rules(b).max_properties,
        a.get("enum"@) == b.get("enum"@) ==> extracted_rules(a).allowed_values == extracted_rules(b).allowed_values,
        a.get("x-kubernetes-int-or-string"@) == b.get("x-kubernetes-int-or-string"@) ==> extracted_rules(a).k8s_int_or_string == extracted_rules(b).k8s_int_or_string,
        a.get("x-kubernetes-preserve-unknown-fields"@) == b.get("x-kubernetes-preserve-unknown-fields"@) ==> extracted_rules(a).k8s_preserve_unknown_fields == extracted_rules(b).k8s_preserve_unknown_fields,
        a.get("x-kubernetes-embedded-resource"@) == b.get("x-kubernetes-embedded-resource"@) ==> extracted_rules(a).k8s_embedded_resource == extracted_rules(b).k8s_embedded_resource,
        a.get("x-kubernetes-validations"@) == b.get("x-kubernetes-validations"@) ==> extracted_rules(a).k8s_cel_validations == extracted_rules(b).k8s_cel_validations,
{
}

} // verus!
