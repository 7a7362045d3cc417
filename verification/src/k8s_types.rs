//! Kubernetes core types: reading them from the cluster's OpenAPI
//! (Swagger 2) definitions, and a small built-in `k8s.io` package.

use vstd::prelude::*;
use crate::error::ParserError;
use crate::imports::TypeReference;
use crate::ir::{Metadata, Module, TypeDefinition};
use crate::json::{JsonValue, JsonView};
use crate::text::{concat, split_char, split_spec, str_eq, to_owned_string, views};
use crate::types::{
    fields_view, insert_field, lemma_fields_view, map_insert, Field, FieldView, Type, TypeView,
};
use crate::walkers::{
    lemma_member_decreases, names_contain, names_contain_exec, required_items, trim_all_prefix, trim_start_all,
};

verus! {

broadcast use vstd::string::group_string_axioms;

/// The name a `#/definitions/...` reference points to.
pub open spec fn definition_name(r: Seq<char>) -> Seq<char> {
    trim_all_prefix(r, "#/definitions/"@)
}

/// Whether an object schema allows further properties: it has an
/// `additionalProperties` member other than `false`.
pub open spec fn k8s_open(s: JsonView) -> bool {
    match s.get("additionalProperties"@) {
        Some(v) => v != JsonView::Bool(false),
        None => false,
    }
}

/// The type of a schema of the Kubernetes definitions: by its `type`
/// member, then by `$ref`, else any value.
pub open spec fn k8s_type(s: JsonView) -> TypeView
    decreases s,
{
    let t = s.str_member("type"@);
    if t == Some("string"@) {
        TypeView::String
    } else if t == Some("number"@) {
        TypeView::Number
    } else if t == Some("integer"@) {
        TypeView::Integer
    } else if t == Some("boolean"@) {
        TypeView::Bool
    } else if t == Some("array"@) {
        match s.get("items"@) {
            Some(items) => {
                proof {
                    lemma_member_decreases(s, "items"@);
                }
                TypeView::Array(Box::new(k8s_type(items)))
            },
            None => TypeView::Array(Box::new(TypeView::Any)),
        }
    } else if t == Some("object"@) {
        let fields = match s.get("properties"@) {
            Some(JsonView::Object(props)) => {
                proof {
                    lemma_member_decreases(s, "properties"@);
                }
                k8s_props(props, required_items(s))
            },
            _ => Seq::empty(),
        };
        TypeView::Record { fields, open: k8s_open(s) }
    } else {
        match s.str_member("$ref"@) {
            Some(r) => TypeView::Reference { name: definition_name(r), module: None },
            None => TypeView::Any,
        }
    }
}

/// The fields of a list of properties, put one after the other into an
/// ordered map: a `$ref` property is a reference without default, any
/// other takes its schema's type and `default`.
pub open spec fn k8s_props(props: Seq<(Seq<char>, JsonView)>, required: Seq<JsonView>) -> Seq<(Seq<char>, FieldView)>
    decreases props,
{
    if props.len() == 0 {
        Seq::empty()
    } else {
        proof {
            assert(props.drop_last() =~= props.subrange(0, props.len() - 1));
            assert(decreases_to!(props => props[props.len() - 1]));
        }
        let (name, ps) = props.last();
        let field = match ps.str_member("$ref"@) {
            Some(r) => FieldView {
                ty: TypeView::Reference { name: definition_name(r), module: None },
                required: names_contain(required, name),
                description: ps.str_member("description"@),
                default: None,
                validation: None,
                contracts: Seq::empty(),
            },
            None => FieldView {
                ty: k8s_type(ps),
                required: names_contain(required, name),
                description: ps.str_member("description"@),
                default: ps.get("default"@),
                validation: None,
                contracts: Seq::empty(),
            },
        };
        map_insert(k8s_props(props.drop_last(), required), name, field)
    }
}

/// The reference a full definition name such as
/// `io.k8s.api.core.v1.Container` stands for: group `k8s.io` for the core
/// and apimachinery types, `<group>.k8s.io` for the others; the version and
/// kind are its last two parts. A name of fewer than five parts, or not
/// under `io.k8s`, is an error.
pub open spec fn k8s_reference(full: Seq<char>) -> Result<(Seq<char>, Seq<char>, Seq<char>), Seq<char>> {
    let parts = split_spec(full, '.');
    if parts.len() < 5 || parts[0] != "io"@ || parts[1] != "k8s"@ {
        Err("Invalid k8s type name: "@ + full)
    } else {
        let group = if parts[3] == "core"@ {
            "k8s.io"@
        } else if parts[2] == "apimachinery"@ {
            "k8s.io"@
        } else {
            parts[3] + ".k8s.io"@
        };
        Ok((group, parts[parts.len() - 2], parts[parts.len() - 1]))
    }
}

/// The value of an optional string.
pub open spec fn opt_view(o: Option<String>) -> Option<Seq<char>> {
    match o {
        Some(s) => Some(s@),
        None => None,
    }
}

/// `d` is the definition named `name` that a schema describes: its type,
/// its description as documentation, no annotations.
pub open spec fn is_definition_of(d: TypeDefinition, name: Seq<char>, s: JsonView) -> bool {
    &&& d.name@ == name
    &&& d.ty@ == k8s_type(s)
    &&& opt_view(d.documentation) == s.str_member("description"@)
    &&& d.annotations@.len() == 0
}

/// The core definitions read, by full name and short name.
pub open spec fn core_type_names() -> Seq<(Seq<char>, Seq<char>)> {
    seq![
        ("io.k8s.apimachinery.pkg.apis.meta.v1.ObjectMeta"@, "ObjectMeta"@),
        ("io.k8s.apimachinery.pkg.apis.meta.v1.ListMeta"@, "ListMeta"@),
        ("io.k8s.apimachinery.pkg.apis.meta.v1.TypeMeta"@, "TypeMeta"@),
        ("io.k8s.apimachinery.pkg.apis.meta.v1.LabelSelector"@, "LabelSelector"@),
        ("io.k8s.api.core.v1.Volume"@, "Volume"@),
        ("io.k8s.api.core.v1.VolumeMount"@, "VolumeMount"@),
        ("io.k8s.api.core.v1.Container"@, "Container"@),
        ("io.k8s.api.core.v1.PodSpec"@, "PodSpec"@),
        ("io.k8s.api.core.v1.ResourceRequirements"@, "ResourceRequirements"@),
        ("io.k8s.api.core.v1.EnvVar"@, "EnvVar"@),
        ("io.k8s.api.core.v1.ConfigMapKeySelector"@, "ConfigMapKeySelector"@),
        ("io.k8s.api.core.v1.SecretKeySelector"@, "SecretKeySelector"@),
    ]
}

/// The `definitions` object of an OpenAPI document, if it has one.
pub open spec fn definitions_of(openapi: JsonView) -> Option<Seq<(Seq<char>, JsonView)>> {
    match openapi.get("definitions"@) {
        Some(d) => d.as_object(),
        None => None,
    }
}

/// Of the listed names, those defined, in order: the reference each full
/// name stands for, or the error of the first that stands for none.
pub open spec fn core_refs(
    defs: Seq<(Seq<char>, JsonView)>,
    names: Seq<(Seq<char>, Seq<char>)>,
) -> Result<Seq<((Seq<char>, Seq<char>, Seq<char>), Seq<char>, JsonView)>, Seq<char>>
    decreases names.len(),
{
    if names.len() == 0 {
        Ok(Seq::empty())
    } else {
        match core_refs(defs, names.drop_last()) {
            Err(e) => Err(e),
            Ok(acc) => {
                let (full, short) = names.last();
                match crate::json::entries_get(defs, full) {
                    None => Ok(acc),
                    Some(schema) => match k8s_reference(full) {
                        Err(e) => Err(e),
                        Ok(r) => Ok(acc.push((r, short, schema))),
                    },
                }
            },
        }
    }
}

/// Once reading a prefix of the names fails, reading them all fails the
/// same way.
proof fn lemma_core_refs_err(defs: Seq<(Seq<char>, JsonView)>, names: Seq<(Seq<char>, Seq<char>)>, j: int)
    requires
        0 <= j <= names.len(),
        core_refs(defs, names.take(j)) is Err,
    ensures
        core_refs(defs, names) == core_refs(defs, names.take(j)),
    decreases names.len() - j,
{
    if j < names.len() {
        assert(names.take(j + 1).drop_last() =~= names.take(j));
        lemma_core_refs_err(defs, names, j + 1);
    } else {
        assert(names.take(j) =~= names);
    }
}

/// Reads the Kubernetes core types out of the cluster's OpenAPI
/// definitions. Fetching the document is left to the caller.
pub struct K8sTypesFetcher {}

impl K8sTypesFetcher {
    /// A reader.
    pub fn new() -> (r: Self) {
        K8sTypesFetcher {  }
    }

    /// The core types the document defines, in the order of
    /// [`core_type_names`], each with the reference it stands for.
    pub fn extract_core_types(&self, openapi: &JsonValue) -> (r: Result<Vec<(TypeReference, TypeDefinition)>, ParserError>)
        ensures
            match definitions_of(openapi@) {
                None => r matches Ok(v) && v@.len() == 0,
                Some(defs) => match core_refs(defs, core_type_names()) {
                    Err(msg) => r matches Err(ParserError::Parse(m)) && m@ == msg,
                    Ok(found) => r matches Ok(v) && v@.len() == found.len() && forall|k: int|
                        0 <= k < v@.len() ==> (#[trigger] v@[k]).0@ == found[k].0 && is_definition_of(
                            v@[k].1,
                            found[k].1,
                            found[k].2,
                        ),
                },
            },
    {
        let mut types: Vec<(TypeReference, TypeDefinition)> = Vec::new();
        let defs = match openapi.get("definitions") {
            Some(d) => d,
            None => {
                return Ok(types);
            },
        };
        if defs.as_object().is_none() {
            return Ok(types);
        }
        let ghost dv = definitions_of(openapi@)->0;
        assert(defs@ == JsonView::Object(dv));
        let core_types = vec![
            ("io.k8s.apimachinery.pkg.apis.meta.v1.ObjectMeta", "ObjectMeta"),
            ("io.k8s.apimachinery.pkg.apis.meta.v1.ListMeta", "ListMeta"),
            ("io.k8s.apimachinery.pkg.apis.meta.v1.TypeMeta", "TypeMeta"),
            ("io.k8s.apimachinery.pkg.apis.meta.v1.LabelSelector", "LabelSelector"),
            ("io.k8s.api.core.v1.Volume", "Volume"),
            ("io.k8s.api.core.v1.VolumeMount", "VolumeMount"),
            ("io.k8s.api.core.v1.Container", "Container"),
            ("io.k8s.api.core.v1.PodSpec", "PodSpec"),
            ("io.k8s.api.core.v1.ResourceRequirements", "ResourceRequirements"),
            ("io.k8s.api.core.v1.EnvVar", "EnvVar"),
            ("io.k8s.api.core.v1.ConfigMapKeySelector", "ConfigMapKeySelector"),
            ("io.k8s.api.core.v1.SecretKeySelector", "SecretKeySelector"),
        ];
        let ghost names = core_type_names();
        assert(core_types@.len() == names.len());
        assert forall|k: int| 0 <= k < names.len() implies (#[trigger] core_types@[k]).0@ == names[k].0
            && core_types@[k].1@ == names[k].1 by {}
        let mut i: usize = 0;
        while i < core_types.len()
            invariant
                i <= core_types.len(),
                core_types@.len() == names.len(),
                forall|k: int| 0 <= k < names.len() ==> (#[trigger] core_types@[k]).0@ == names[k].0
                    && core_types@[k].1@ == names[k].1,
                defs@ == JsonView::Object(dv),
                names == core_type_names(),
                definitions_of(openapi@) == Some(dv),
                core_refs(dv, names.take(i as int)) matches Ok(found) && types@.len() == found.len() && forall|k: int|
                    0 <= k < types@.len() ==> (#[trigger] types@[k]).0@ == found[k].0 && is_definition_of(
                        types@[k].1,
                        found[k].1,
                        found[k].2,
                    ),
            decreases core_types.len() - i,
        {
            let (full_name, short_name) = core_types[i];
            assert(names.take(i + 1).drop_last() =~= names.take(i as int));
            assert(names.take(i + 1).last() == names[i as int]);
            match defs.get(full_name) {
                Some(schema) => {
                    let type_ref = match self.parse_type_reference(full_name) {
                        Ok(t) => t,
                        Err(e) => {
                            proof {
                                lemma_core_refs_err(dv, names, i + 1);
                            }
                            return Err(e);
                        },
                    };
                    let type_def = match self.schema_to_type_definition(short_name, schema) {
                        Ok(d) => d,
                        Err(e) => {
                            return Err(e);
                        },
                    };
                    types.push((type_ref, type_def));
                },
                None => {},
            }
            i = i + 1;
        }
        assert(names.take(i as int) =~= names);
        Ok(types)
    }

    /// The reference a full definition name stands for.
    pub fn parse_type_reference(&self, full_name: &str) -> (r: Result<TypeReference, ParserError>)
        ensures
            match k8s_reference(full_name@) {
                Ok(t) => r matches Ok(tr) && tr@ == t,
                Err(msg) => r matches Err(ParserError::Parse(m)) && m@ == msg,
            },
    {
        let parts = split_char(full_name, '.');
        let ghost ps = views(parts@);
        if parts.len() < 5 || !str_eq(parts[0].as_str(), "io") || !str_eq(parts[1].as_str(), "k8s") {
            return Err(ParserError::Parse(concat("Invalid k8s type name: ", full_name)));
        }
        assert(ps[3] == parts@[3]@ && ps[2] == parts@[2]@);
        let group = if str_eq(parts[3].as_str(), "core") {
            to_owned_string("k8s.io")
        } else if str_eq(parts[2].as_str(), "apimachinery") {
            to_owned_string("k8s.io")
        } else {
            concat(parts[3].as_str(), ".k8s.io")
        };
        let n = parts.len();
        assert(ps[n - 2] == parts@[n - 2]@ && ps[n - 1] == parts@[n - 1]@);
        Ok(TypeReference::new(group, parts[n - 2].clone(), parts[n - 1].clone()))
    }

    /// The definition named `name` that a schema describes.
    pub fn schema_to_type_definition(&self, name: &str, schema: &JsonValue) -> (r: Result<TypeDefinition, ParserError>)
        ensures
            r matches Ok(d) && is_definition_of(d, name@, schema@),
    {
        let ty = match self.json_schema_to_type(schema) {
            Ok(t) => t,
            Err(e) => {
                return Err(e);
            },
        };
        Ok(
            TypeDefinition {
                name: to_owned_string(name),
                ty,
                documentation: schema.str_member("description"),
                annotations: Vec::new(),
            },
        )
    }

    /// The type a schema of the Kubernetes definitions describes.
    pub fn json_schema_to_type(&self, schema: &JsonValue) -> (r: Result<Type, ParserError>)
        ensures
            r matches Ok(t) && t@ == k8s_type(schema@),
        decreases schema, 1nat,
    {
        match schema.str_member("type") {
            Some(t) => {
                let t = t.as_str();
                if str_eq(t, "string") {
                    return Ok(Type::String);
                }
                if str_eq(t, "number") {
                    return Ok(Type::Number);
                }
                if str_eq(t, "integer") {
                    return Ok(Type::Integer);
                }
                if str_eq(t, "boolean") {
                    return Ok(Type::Bool);
                }
                if str_eq(t, "array") {
                    let items = match schema.get("items") {
                        Some(i) => match self.json_schema_to_type(i) {
                            Ok(t) => t,
                            Err(e) => {
                                return Err(e);
                            },
                        },
                        None => Type::Any,
                    };
                    return Ok(Type::Array(Box::new(items)));
                }
                if str_eq(t, "object") {
                    return self.object_type(schema);
                }
            },
            None => {},
        }
        match schema.str_member("$ref") {
            Some(r) => Ok(Type::Reference { name: trim_start_all(r.as_str(), "#/definitions/"), module: None }),
            None => Ok(Type::Any),
        }
    }

    /// The record type of an object schema.
    fn object_type(&self, schema: &JsonValue) -> (r: Result<Type, ParserError>)
        requires
            schema@.str_member("type"@) == Some("object"@),
        ensures
            r matches Ok(t) && t@ == k8s_type(schema@),
        decreases schema, 0nat,
    {
        proof {
            reveal_strlit("string");
            reveal_strlit("number");
            reveal_strlit("integer");
            reveal_strlit("boolean");
            reveal_strlit("array");
            reveal_strlit("object");
            assert("object"@[0] != "string"@[0] && "object"@[0] != "number"@[0]);
        }
        let mut fields: Vec<(String, Field)> = Vec::new();
        let props = match schema.get("properties") {
            Some(JsonValue::Object(props)) => Some(props),
            _ => None,
        };
        if let Some(props) = props {
            let required = match schema.get("required") {
                Some(v) => v.as_array(),
                None => None,
            };
            let ghost pe = crate::json::json_entries_view(props@);
            let ghost req = required_items(schema@);
            proof {
                crate::json::lemma_json_entries_view(props@);
                lemma_member_decreases(schema@, "properties"@);
                assert(pe.take(0) =~= Seq::<(Seq<char>, JsonView)>::empty());
            }
            let mut i: usize = 0;
            while i < props.len()
                invariant
                    decreases_to!(*schema => *props),
                    pe == crate::json::json_entries_view(props@),
                    pe.len() == props.len(),
                    forall|j: int| 0 <= j < props.len() ==> #[trigger] pe[j] == (props@[j].0@, props@[j].1@),
                    req == required_items(schema@),
                    match required {
                        Some(v) => req == crate::json::json_seq_view(v@),
                        None => req == Seq::<JsonView>::empty(),
                    },
                    i <= props.len(),
                    fields_view(fields@) == k8s_props(pe.take(i as int), req),
                decreases props.len() - i,
            {
                proof {
                    assert(pe.take(i + 1).drop_last() =~= pe.take(i as int));
                    assert(pe.take(i + 1).last() == pe[i as int]);
                    vstd::std_specs::vec::axiom_vec_index_decreases(*props, i as int);
                    assert(decreases_to!(props@[i as int] => props@[i as int].1));
                }
                let name = &props[i].0;
                let field_schema = &props[i].1;
                let is_required = match required {
                    Some(v) => names_contain_exec(v, name.as_str()),
                    None => false,
                };
                let description = field_schema.str_member("description");
                let field = match field_schema.str_member("$ref") {
                    Some(r) => Field {
                        ty: Type::Reference { name: trim_start_all(r.as_str(), "#/definitions/"), module: None },
                        required: is_required,
                        description,
                        default: None,
                        validation: None,
                        contracts: Vec::new(),
                    },
                    None => {
                        let ty = match self.json_schema_to_type(field_schema) {
                            Ok(t) => t,
                            Err(e) => {
                                return Err(e);
                            },
                        };
                        let default = match field_schema.get("default") {
                            Some(d) => Some(d.duplicate()),
                            None => None,
                        };
                        Field { ty, required: is_required, description, default, validation: None, contracts: Vec::new() }
                    },
                };
                proof {
                    assert(crate::types::rule_views(field.contracts@) =~= Seq::<crate::types::ContractRuleView>::empty());
                }
                insert_field(&mut fields, name.clone(), field);
                i = i + 1;
            }
            proof {
                assert(pe.take(props.len() as int) =~= pe);
            }
        }
        proof {
            lemma_fields_view(fields@);
        }
        let open = match schema.get("additionalProperties") {
            Some(v) => !matches!(v, JsonValue::Bool(false)),
            None => false,
        };
        Ok(Type::Record { fields, open })
    }
}

fn described_field(ty: Type, description: &str) -> (r: Field)
    ensures
        r@ == described(ty@, description@),
{
    let r = Field {
        ty,
        required: false,
        description: Some(to_owned_string(description)),
        default: None,
        validation: None,
        contracts: Vec::new(),
    };
    assert(crate::types::rule_views(r.contracts@) =~= Seq::<crate::types::ContractRuleView>::empty());
    r
}

/// An optional string-to-string map.
fn optional_string_map() -> (r: Type)
    ensures
        r@ == TypeView::Optional(
            Box::new(TypeView::Mapping { key: Box::new(TypeView::String), value: Box::new(TypeView::String) }),
        ),
{
    let k = Type::String;
    let v = Type::String;
    assert(k@ == TypeView::String && v@ == TypeView::String);
    let m = Type::Mapping { key: Box::new(k), value: Box::new(v) };
    assert(m@ == TypeView::Mapping { key: Box::new(TypeView::String), value: Box::new(TypeView::String) });
    Type::Optional(Box::new(m))
}

/// An optional string.
fn optional_string() -> (r: Type)
    ensures
        r@ == TypeView::Optional(Box::new(TypeView::String)),
{
    let s = Type::String;
    assert(s@ == TypeView::String);
    Type::Optional(Box::new(s))
}

/// A field that is not required, of type `ty`, with a description.
pub open spec fn described(ty: TypeView, description: Seq<char>) -> FieldView {
    FieldView { ty, required: false, description: Some(description), default: None, validation: None, contracts: Seq::empty() }
}

/// The fields of the built-in `ObjectMeta`, put into an ordered map.
pub open spec fn object_meta_fields() -> Seq<(Seq<char>, FieldView)> {
    let s = TypeView::Optional(Box::new(TypeView::String));
    let m = TypeView::Optional(
        Box::new(TypeView::Mapping { key: Box::new(TypeView::String), value: Box::new(TypeView::String) }),
    );
    let f0 = map_insert(Seq::empty(), "name"@, described(s, "Name must be unique within a namespace"@));
    let f1 = map_insert(f0, "namespace"@, described(s, "Namespace defines the space within which each name must be unique"@));
    let f2 = map_insert(f1, "labels"@, described(m, "Map of string keys and values for organizing and categorizing objects"@));
    let f3 = map_insert(f2, "annotations"@, described(m, "Annotations is an unstructured key value map"@));
    let f4 = map_insert(f3, "uid"@, described(s, "UID is the unique in time and space value for this object"@));
    map_insert(f4, "resourceVersion"@, described(s, "An opaque value that represents the internal version of this object"@))
}

/// The built-in `k8s.io` package: one open `ObjectMeta` record of optional
/// fields (`annotations`, `labels`, `name`, `namespace`, `resourceVersion`,
/// `uid`), without imports, constants or metadata.
pub fn generate_k8s_package() -> (r: Module)
    ensures
        r.name@ == "k8s.io"@,
        r.imports@.len() == 0,
        r.constants@.len() == 0,
        crate::ir::empty_metadata(r.metadata),
        r.types@.len() == 1,
        r.types@[0].name@ == "ObjectMeta"@,
        r.types@[0].documentation matches Some(d) && d@ == "ObjectMeta is metadata that all persisted resources must have"@,
        r.types@[0].annotations@.len() == 0,
        r.types@[0].ty@ == (TypeView::Record { fields: object_meta_fields(), open: true }),
{
    let mut fields: Vec<(String, Field)> = Vec::new();
    proof {
        lemma_fields_view(fields@);
    }
    insert_field(
        &mut fields,
        to_owned_string("name"),
        described_field(optional_string(), "Name must be unique within a namespace"),
    );
    insert_field(
        &mut fields,
        to_owned_string("namespace"),
        described_field(optional_string(), "Namespace defines the space within which each name must be unique"),
    );
    insert_field(
        &mut fields,
        to_owned_string("labels"),
        described_field(optional_string_map(), "Map of string keys and values for organizing and categorizing objects"),
    );
    insert_field(
        &mut fields,
        to_owned_string("annotations"),
        described_field(optional_string_map(), "Annotations is an unstructured key value map"),
    );
    insert_field(
        &mut fields,
        to_owned_string("uid"),
        described_field(optional_string(), "UID is the unique in time and space value for this object"),
    );
    insert_field(
        &mut fields,
        to_owned_string("resourceVersion"),
        described_field(optional_string(), "An opaque value that represents the internal version of this object"),
    );
    proof {
        lemma_fields_view(fields@);
    }
    let object_meta = TypeDefinition {
        name: to_owned_string("ObjectMeta"),
        ty: Type::Record { fields, open: true },
        documentation: Some(to_owned_string("ObjectMeta is metadata that all persisted resources must have")),
        annotations: Vec::new(),
    };
    let mut types: Vec<TypeDefinition> = Vec::new();
    types.push(object_meta);
    Module {
        name: to_owned_string("k8s.io"),
        imports: Vec::new(),
        types,
        constants: Vec::new(),
        metadata: Metadata::default(),
    }
}

} // verus!
