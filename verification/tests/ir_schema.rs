use amalgam::ir::{is_k8s_list_type, IRBuilder, Metadata, Module, TypeDefinition};
use amalgam::json::JsonValue;
use amalgam::types::{insert_field, Field, Type};
use amalgam::validation::json_schema_to_type;
use amalgam::walkers::CRDWalker;

fn to_json(v: &serde_json::Value) -> JsonValue {
    match v {
        serde_json::Value::Null => JsonValue::Null,
        serde_json::Value::Bool(b) => JsonValue::Bool(*b),
        serde_json::Value::Number(n) => JsonValue::Number(n.to_string()),
        serde_json::Value::String(s) => JsonValue::Str(s.clone()),
        serde_json::Value::Array(items) => JsonValue::Array(items.iter().map(to_json).collect()),
        serde_json::Value::Object(map) => {
            JsonValue::Object(map.iter().map(|(k, v)| (k.clone(), to_json(v))).collect())
        }
    }
}

fn parse(text: &str) -> JsonValue {
    to_json(&serde_json::from_str::<serde_json::Value>(text).unwrap())
}

fn field(ty: Type) -> Field {
    Field { ty, required: false, description: None, default: None, validation: None, contracts: vec![] }
}

fn reference(name: &str) -> Type {
    Type::Reference { name: name.to_string(), module: None }
}

fn make_k8s_resource_type() -> Type {
    let mut fields = Vec::new();
    insert_field(&mut fields, "apiVersion".to_string(), field(Type::String));
    insert_field(&mut fields, "kind".to_string(), field(Type::String));
    insert_field(&mut fields, "metadata".to_string(), field(reference("ObjectMeta")));
    insert_field(
        &mut fields,
        "spec".to_string(),
        field(Type::Record { fields: Vec::new(), open: true }),
    );
    Type::Record { fields, open: false }
}

fn make_k8s_list_type() -> Type {
    let mut fields = Vec::new();
    insert_field(&mut fields, "apiVersion".to_string(), field(Type::String));
    insert_field(&mut fields, "kind".to_string(), field(Type::String));
    insert_field(&mut fields, "metadata".to_string(), field(reference("ListMeta")));
    insert_field(
        &mut fields,
        "items".to_string(),
        Field {
            ty: Type::Array(Box::new(reference("Deployment"))),
            required: true,
            description: Some("Items is the list of Deployments.".to_string()),
            default: None,
            validation: None,
            contracts: vec![],
        },
    );
    Type::Record { fields, open: false }
}

fn definition(name: &str, ty: Type, documentation: Option<&str>) -> TypeDefinition {
    TypeDefinition {
        name: name.to_string(),
        ty,
        documentation: documentation.map(|d| d.to_string()),
        annotations: Vec::new(),
    }
}

#[test]
fn test_ir_builder() {
    let ir = IRBuilder::new()
        .module("test")
        .add_type("MyType", Type::String)
        .add_type("MyNumber", Type::Number)
        .build();

    assert_eq!(ir.modules.len(), 1);
    assert_eq!(ir.modules[0].name, "test");
    assert_eq!(ir.modules[0].types.len(), 2);

    let my_type = ir.find_type("MyType");
    assert!(my_type.is_some());
    assert_eq!(my_type.unwrap().ty, Type::String);
}

#[test]
fn builder_without_module_ignores_types() {
    let ir = IRBuilder::new().add_type("Lost", Type::String).add_import("x.ncl").build();
    assert_eq!(ir.modules.len(), 0);
    assert!(ir.find_type("Lost").is_none());
}

#[test]
fn builder_modules_in_order_and_first_match_wins() {
    let ir = IRBuilder::new()
        .module("a")
        .add_type("T", Type::String)
        .add_import("./other.ncl")
        .module("b")
        .add_type("T", Type::Number)
        .build();
    assert_eq!(ir.modules.len(), 2);
    assert_eq!(ir.modules[0].name, "a");
    assert_eq!(ir.modules[1].name, "b");
    assert_eq!(ir.modules[0].imports.len(), 1);
    assert_eq!(ir.modules[0].imports[0].path, "./other.ncl");
    assert_eq!(ir.find_type("T").unwrap().ty, Type::String);
    let merged = ir.merge(IRBuilder::new().module("c").build());
    assert_eq!(merged.modules.len(), 3);
    assert_eq!(merged.modules[2].name, "c");
}

#[test]
fn test_is_k8s_list_type() {
    let resource = make_k8s_resource_type();
    let list = make_k8s_list_type();

    assert!(!is_k8s_list_type(&resource));
    assert!(is_k8s_list_type(&list));
}

#[test]
fn test_module_deduplicate_types_renames_list() {
    let mut module = Module {
        name: "test.v1".to_string(),
        imports: vec![],
        types: vec![
            definition("Deployment", make_k8s_resource_type(), Some("A Deployment resource")),
            definition("Deployment", make_k8s_list_type(), Some("A list of Deployments")),
        ],
        constants: vec![],
        metadata: Metadata::default(),
    };

    module.deduplicate_types();

    assert_eq!(module.types.len(), 2);
    let names: Vec<_> = module.types.iter().map(|t| t.name.as_str()).collect();
    assert!(names.contains(&"Deployment"));
    assert!(names.contains(&"DeploymentList"));
}

#[test]
fn test_module_deduplicate_removes_true_duplicates() {
    let mut module = Module {
        name: "test.v1".to_string(),
        imports: vec![],
        types: vec![
            definition("MyType", Type::String, Some("First")),
            definition("MyType", Type::String, Some("Second")),
        ],
        constants: vec![],
        metadata: Metadata::default(),
    };

    module.deduplicate_types();

    assert_eq!(module.types.len(), 1);
    assert_eq!(module.types[0].name, "MyType");
    assert_eq!(module.types[0].documentation, Some("First".to_string()));
}

#[test]
fn test_ir_deduplicate_types() {
    let mut ir = IRBuilder::new().module("test.v1").add_type("Unique", Type::String).build();

    ir.modules[0].types.push(definition("Deployment", make_k8s_resource_type(), None));
    ir.modules[0].types.push(definition("Deployment", make_k8s_list_type(), None));

    ir.deduplicate_types();

    assert_eq!(ir.modules[0].types.len(), 3);
    let names: Vec<_> = ir.modules[0].types.iter().map(|t| t.name.as_str()).collect();
    assert!(names.contains(&"Unique"));
    assert!(names.contains(&"Deployment"));
    assert!(names.contains(&"DeploymentList"));
}

#[test]
fn dedup_keeps_order_and_unique_names() {
    let mut module = Module {
        name: "m".to_string(),
        imports: vec![],
        types: vec![
            definition("A", Type::String, Some("1")),
            definition("B", Type::String, None),
            definition("A", Type::Number, Some("2")),
            definition("A", make_k8s_list_type(), Some("3")),
        ],
        constants: vec![],
        metadata: Metadata::default(),
    };
    module.deduplicate_types();
    let names: Vec<_> = module.types.iter().map(|t| t.name.as_str()).collect();
    assert_eq!(names, vec!["A", "B", "AList"]);
    assert_eq!(module.types[0].documentation, Some("1".to_string()));
    assert_eq!(module.types[2].documentation, Some("3".to_string()));
}

#[test]
fn fields_keep_key_order() {
    let mut fields = Vec::new();
    insert_field(&mut fields, "zeta".to_string(), field(Type::String));
    insert_field(&mut fields, "alpha".to_string(), field(Type::String));
    insert_field(&mut fields, "mid".to_string(), field(Type::String));
    insert_field(&mut fields, "alpha".to_string(), field(Type::Number));
    let keys: Vec<_> = fields.iter().map(|f| f.0.as_str()).collect();
    assert_eq!(keys, vec!["alpha", "mid", "zeta"]);
    assert_eq!(fields[0].1.ty, Type::Number);
}

#[test]
fn type_equality_is_structural() {
    let a = make_k8s_list_type();
    let b = make_k8s_list_type();
    assert!(a.same_as(&b));
    assert!(!a.same_as(&make_k8s_resource_type()));
    assert!(a.duplicate().same_as(&a));
    assert_eq!(a.duplicate(), a);
}

#[test]
fn json_members() {
    let v = parse(r#"{"a": "x", "b": true, "c": [1, 2], "d": {"e": null}}"#);
    assert_eq!(v.str_member("a"), Some("x".to_string()));
    assert_eq!(v.get("b").and_then(|b| b.as_bool()), Some(true));
    assert_eq!(v.get("c").and_then(|c| c.as_array()).map(|c| c.len()), Some(2));
    assert!(v.get("zz").is_none());
    assert!(v.get("d").unwrap().get("e").is_some());
    assert!(amalgam::json::json_eq(&v, &v.duplicate()));
    assert!(!amalgam::json::json_eq(&v, &parse(r#"{"a": "y"}"#)));
}

fn crd() -> CRDWalker {
    CRDWalker::new("example.io.v1")
}

#[test]
fn crd_primitives_and_arrays() {
    let w = crd();
    let mut refs = Vec::new();
    assert_eq!(w.json_schema_to_type(&parse(r#"{"type": "string"}"#), &mut refs), Type::String);
    assert_eq!(w.json_schema_to_type(&parse(r#"{"type": "integer"}"#), &mut refs), Type::Integer);
    assert_eq!(w.json_schema_to_type(&parse(r#"{"type": "null"}"#), &mut refs), Type::Null);
    assert_eq!(
        w.json_schema_to_type(&parse(r#"{"type": "array", "items": {"type": "number"}}"#), &mut refs),
        Type::Array(Box::new(Type::Number))
    );
    assert_eq!(
        w.json_schema_to_type(&parse(r#"{"type": "array"}"#), &mut refs),
        Type::Array(Box::new(Type::Any))
    );
    assert_eq!(w.json_schema_to_type(&parse(r#"{"type": "weird"}"#), &mut refs), Type::Any);
    assert_eq!(w.json_schema_to_type(&parse(r#"{}"#), &mut refs), Type::Any);
    assert!(refs.is_empty());
}

#[test]
fn crd_references() {
    let w = crd();
    let mut refs = Vec::new();
    let t = w.json_schema_to_type(
        &parse(r##"{"$ref": "#/definitions/io.k8s.api.core.v1.PodSpec"}"##),
        &mut refs,
    );
    assert_eq!(
        t,
        Type::Reference {
            name: "io.k8s.api.core.v1.PodSpec".to_string(),
            module: Some("io.k8s.api.core.v1".to_string())
        }
    );
    let local = w.json_schema_to_type(&parse(r##"{"$ref": "#/definitions/Local"}"##), &mut refs);
    assert_eq!(
        local,
        Type::Reference { name: "Local".to_string(), module: Some("example.io.v1".to_string()) }
    );
    let nested = w.json_schema_to_type(&parse(r##"{"$ref": "other/path/Thing"}"##), &mut refs);
    assert_eq!(
        nested,
        Type::Reference { name: "Thing".to_string(), module: Some("example.io.v1".to_string()) }
    );
    assert_eq!(
        refs,
        vec![
            "#/definitions/io.k8s.api.core.v1.PodSpec".to_string(),
            "#/definitions/Local".to_string(),
            "other/path/Thing".to_string()
        ]
    );
}

#[test]
fn crd_object_fields() {
    let w = crd();
    let mut refs = Vec::new();
    let schema = parse(
        r##"{
            "type": "object",
            "required": ["name"],
            "additionalProperties": true,
            "properties": {
                "name": {"type": "string", "description": "The name"},
                "child": {"$ref": "#/definitions/Child"},
                "count": {"type": "integer", "default": 3}
            }
        }"##,
    );
    let t = w.json_schema_to_type(&schema, &mut refs);
    match t {
        Type::Record { fields, open } => {
            assert!(open);
            let keys: Vec<_> = fields.iter().map(|f| f.0.as_str()).collect();
            assert_eq!(keys, vec!["child", "count", "name"]);
            assert!(fields[2].1.required);
            assert_eq!(fields[2].1.description, Some("The name".to_string()));
            assert!(!fields[1].1.required);
            assert_eq!(fields[1].1.default, None);
            assert_eq!(fields[1].1.ty, Type::Integer);
        }
        other => panic!("expected a record, got {:?}", other),
    }
    assert_eq!(refs, vec!["#/definitions/Child".to_string()]);
}

#[test]
fn crd_unions_and_all_of() {
    let w = crd();
    let mut refs = Vec::new();
    let one = w.json_schema_to_type(&parse(r#"{"oneOf": [{"type": "string"}, {"type": "integer"}]}"#), &mut refs);
    assert_eq!(one, Type::Union { types: vec![Type::String, Type::Integer], coercion_hint: None });
    let empty_all = w.json_schema_to_type(&parse(r#"{"allOf": []}"#), &mut refs);
    assert_eq!(empty_all, Type::Any);
    let single = w.json_schema_to_type(&parse(r#"{"allOf": [{"type": "boolean"}]}"#), &mut refs);
    assert_eq!(single, Type::Bool);
    let merged = w.json_schema_to_type(
        &parse(
            r#"{"allOf": [
                {"type": "object", "properties": {"a": {"type": "string"}, "b": {"type": "string"}}, "required": ["a"]},
                {"type": "string"},
                {"type": "object", "properties": {"a": {"type": "integer"}, "c": {"type": "string"}}, "required": ["a"]}
            ]}"#,
        ),
        &mut refs,
    );
    match merged {
        Type::Union { types, coercion_hint } => {
            assert!(coercion_hint.is_none());
            assert_eq!(types.len(), 2);
            assert_eq!(types[1], Type::String);
            match &types[0] {
                Type::Record { fields, open } => {
                    assert!(!open);
                    let keys: Vec<_> = fields.iter().map(|f| f.0.as_str()).collect();
                    assert_eq!(keys, vec!["a", "b", "c"]);
                    assert_eq!(
                        fields[0].1.ty,
                        Type::Union { types: vec![Type::String, Type::Integer], coercion_hint: None }
                    );
                    assert!(fields[0].1.required);
                }
                other => panic!("expected a record, got {:?}", other),
            }
        }
        other => panic!("expected a union, got {:?}", other),
    }
}

#[test]
fn crd_extract_references_as_set() {
    let w = crd();
    let t = Type::Union {
        types: vec![
            Type::Reference { name: "Pod".to_string(), module: Some("io.k8s.api.core.v1".to_string()) },
            Type::Array(Box::new(reference("Local"))),
            Type::Reference { name: "Pod".to_string(), module: Some("io.k8s.api.core.v1".to_string()) },
        ],
        coercion_hint: None,
    };
    let mut refs = vec!["Local".to_string()];
    w.extract_references(&t, &mut refs);
    refs.sort();
    assert_eq!(refs, vec!["Local".to_string(), "io.k8s.api.core.v1.Pod".to_string()]);
}

#[test]
fn swagger_schema_types() {
    assert_eq!(json_schema_to_type(&parse(r##"{"$ref": "#/definitions/io.k8s.Foo"}"##)), reference("io.k8s.Foo"));
    assert_eq!(json_schema_to_type(&parse(r#"{"type": "boolean"}"#)), Type::Bool);
    assert_eq!(json_schema_to_type(&parse(r#"{"type": "null"}"#)), Type::Any);
    assert_eq!(json_schema_to_type(&parse(r#"{"allOf": [{"type": "string"}]}"#)), Type::Any);
    assert_eq!(
        json_schema_to_type(&parse(r#"{"anyOf": [{"type": "string"}, {"type": "number"}]}"#)),
        Type::Union { types: vec![Type::String, Type::Number], coercion_hint: None }
    );
    let rec = json_schema_to_type(&parse(
        r#"{"type": "object", "additionalProperties": false, "required": ["x"],
            "properties": {"x": {"type": "string", "default": "hi"}}}"#,
    ));
    match rec {
        Type::Record { fields, open } => {
            assert!(open);
            assert_eq!(fields.len(), 1);
            assert!(fields[0].1.required);
            assert_eq!(fields[0].1.default, Some(JsonValue::Str("hi".to_string())));
        }
        other => panic!("expected a record, got {:?}", other),
    }
}

use amalgam::types::StringFormat;
use amalgam::validation::ValidationExtractor;

#[test]
fn test_extract_string_validation() {
    let schema = parse(
        r#"{
            "type": "string",
            "minLength": 1,
            "maxLength": 253,
            "pattern": "^[a-z0-9]([a-z0-9-]*[a-z0-9])?$",
            "format": "dns1123-subdomain"
        }"#,
    );

    let rules = ValidationExtractor::extract_validation_rules(&schema);

    assert_eq!(rules.min_length, Some(1));
    assert_eq!(rules.max_length, Some(253));
    assert_eq!(rules.pattern, Some("^[a-z0-9]([a-z0-9-]*[a-z0-9])?$".to_string()));
    assert_eq!(rules.format, Some(StringFormat::Dns1123Subdomain));
}

fn as_f64(text: &Option<String>) -> Option<f64> {
    text.as_ref().map(|t| t.parse::<f64>().unwrap())
}

#[test]
fn test_extract_number_validation() {
    let schema = parse(
        r#"{
            "type": "number",
            "minimum": 0,
            "maximum": 100,
            "exclusiveMinimum": -1
        }"#,
    );

    let rules = ValidationExtractor::extract_validation_rules(&schema);

    assert_eq!(as_f64(&rules.minimum), Some(0.0));
    assert_eq!(as_f64(&rules.maximum), Some(100.0));
    assert_eq!(as_f64(&rules.exclusive_minimum), Some(-1.0));
}

#[test]
fn test_extract_array_validation() {
    let schema = parse(r#"{"type": "array", "minItems": 1, "maxItems": 10, "uniqueItems": true}"#);

    let rules = ValidationExtractor::extract_validation_rules(&schema);

    assert_eq!(rules.min_items, Some(1));
    assert_eq!(rules.max_items, Some(10));
    assert_eq!(rules.unique_items, Some(true));
}

#[test]
fn test_extract_k8s_extensions() {
    let schema = parse(
        r#"{
            "type": "string",
            "x-kubernetes-int-or-string": true,
            "x-kubernetes-preserve-unknown-fields": true,
            "x-kubernetes-validations": [
                {"rule": "self.size() <= 1024", "message": "Value too large"}
            ]
        }"#,
    );

    let rules = ValidationExtractor::extract_validation_rules(&schema);

    assert!(rules.k8s_int_or_string);
    assert!(rules.k8s_preserve_unknown_fields);
    assert_eq!(rules.k8s_cel_validations, vec!["self.size() <= 1024"]);
}

#[test]
fn test_extract_enum_validation() {
    let schema = parse(r#"{"type": "string", "enum": ["Ready", "NotReady", "Unknown"]}"#);

    let rules = ValidationExtractor::extract_validation_rules(&schema);

    assert!(rules.allowed_values.is_some());
    let values = rules.allowed_values.unwrap();
    assert_eq!(values.len(), 3);
}

#[test]
fn test_has_validation_rules() {
    let schema_with_rules = parse(r#"{"type": "string", "minLength": 1}"#);
    let schema_without_rules = parse(r#"{"type": "string"}"#);

    assert!(ValidationExtractor::has_validation_rules(&schema_with_rules));
    assert!(!ValidationExtractor::has_validation_rules(&schema_without_rules));
}

#[test]
fn test_extract_contract_rules() {
    let schema = parse(r#"{"oneOf": [{"type": "string"}, {"type": "number"}]}"#);

    let contracts = ValidationExtractor::extract_contract_rules(&schema);

    assert_eq!(contracts.len(), 1);
    assert_eq!(contracts[0].name, "oneOf");
    assert!(contracts[0].description.is_some());
}

#[test]
fn validation_integer_forms() {
    let rules = ValidationExtractor::extract_validation_rules(&parse(
        r#"{"minLength": -1, "maxLength": 2.5, "minItems": 18446744073709551615, "format": "my-format"}"#,
    ));
    assert_eq!(rules.min_length, None);
    assert_eq!(rules.max_length, None);
    assert_eq!(rules.min_items, Some(18446744073709551615u64 as usize));
    assert_eq!(rules.format, Some(StringFormat::Custom("my-format".to_string())));
    assert!(!ValidationExtractor::has_validation_rules(&parse(r#"[1]"#)));
}

#[test]
fn contract_expressions() {
    let contracts = ValidationExtractor::extract_contract_rules(&parse(
        r#"{
            "oneOf": [{"const": "a"}, {"const": 3}, {"const": true}],
            "anyOf": [{"type": "object"}, {"type": "null"}],
            "allOf": [{}, {}],
            "not": {"type": "integer"}
        }"#,
    ));
    let names: Vec<_> = contracts.iter().map(|c| c.name.as_str()).collect();
    assert_eq!(names, vec!["oneOf", "anyOf", "allOf", "not"]);
    assert_eq!(contracts[0].expression, "std.array.elem value [\"a\", 3, true]");
    assert_eq!(contracts[1].expression, "(std.is_record value || value == null)");
    assert_eq!(contracts[2].expression, "true # allOf with 2 constraints - merged at parse time");
    assert_eq!(contracts[3].expression, "!(std.is_number value)");
    let mixed = ValidationExtractor::extract_contract_rules(&parse(r#"{"oneOf": [{"type": "string"}, {}], "not": {"const": "x"}}"#));
    assert_eq!(mixed[0].expression, "true # oneOf with 2 schemas - complex validation not yet supported");
    assert_eq!(mixed[1].expression, "value != \"x\"");
    assert!(ValidationExtractor::extract_contract_rules(&parse(r#"{"oneOf": []}"#)).is_empty());
    let odd = ValidationExtractor::extract_contract_rules(&parse(r#"{"not": {"type": "weird"}}"#));
    assert_eq!(odd[0].expression, "true # not constraint - type not recognized");
}

use amalgam::error::ParserError;
use amalgam::validation::parse_swagger_json_lenient;

#[test]
fn swagger_document_groups_definitions_by_module() {
    let doc = parse(
        r##"{
            "swagger": "2.0",
            "definitions": {
                "io.k8s.api.core.v1.Pod": {"type": "object", "properties": {"spec": {"$ref": "#/definitions/io.k8s.api.core.v1.PodSpec"}}},
                "io.k8s.api.core.v1.PodSpec": {"type": "object"},
                "io.k8s.api.apps.v1.Deployment": {"type": "object"},
                "Plain": {"type": "string"}
            }
        }"##,
    );
    let ir = parse_swagger_json_lenient(&doc).unwrap();
    let modules: Vec<_> = ir.modules.iter().map(|m| m.name.as_str()).collect();
    assert_eq!(modules, vec!["types", "io.k8s.api.apps.v1", "io.k8s.api.core.v1"]);
    assert_eq!(ir.modules[0].types[0].name, "Plain");
    assert_eq!(ir.modules[0].types[0].ty, Type::String);
    let core: Vec<_> = ir.modules[2].types.iter().map(|t| t.name.as_str()).collect();
    assert_eq!(core, vec!["Pod", "PodSpec"]);
    assert!(ir.find_type("Deployment").is_some());
}

#[test]
fn swagger_document_requires_version_two() {
    match parse_swagger_json_lenient(&parse(r#"{"swagger": "3.0"}"#)) {
        Err(ParserError::InvalidInput(m)) => assert_eq!(m, "Not a Swagger 2.0 document"),
        other => panic!("expected an error, got {:?}", other.map(|ir| ir.modules.len())),
    }
    assert!(parse_swagger_json_lenient(&parse(r#"{"openapi": "3.0.0"}"#)).is_err());
    let empty = parse_swagger_json_lenient(&parse(r#"{"swagger": "2.0"}"#)).unwrap();
    assert_eq!(empty.modules.len(), 0);
}
