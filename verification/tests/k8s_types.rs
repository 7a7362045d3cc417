use amalgam::error::ParserError;
use amalgam::json::JsonValue;
use amalgam::k8s_types::{generate_k8s_package, K8sTypesFetcher};
use amalgam::types::Type;

fn to_json(v: &serde_json::Value) -> JsonValue {
    match v {
        serde_json::Value::Null => JsonValue::Null,
        serde_json::Value::Bool(b) => JsonValue::Bool(*b),
        serde_json::Value::Number(n) => JsonValue::Number(n.to_string()),
        serde_json::Value::String(s) => JsonValue::Str(s.clone()),
        serde_json::Value::Array(items) => JsonValue::Array(items.iter().map(to_json).collect()),
        serde_json::Value::Object(map) => {
            JsonValue::Object(map.iter().map(|(k, v)| (k.clone(), to_json(v))).collect())
        }
    }
}

fn parse(text: &str) -> JsonValue {
    to_json(&serde_json::from_str::<serde_json::Value>(text).unwrap())
}

#[test]
fn k8s_schema_object_with_reference_and_default() {
    let fetcher = K8sTypesFetcher::new();
    let schema = parse(
        r##"{"type": "object", "required": ["name"], "additionalProperties": {"type": "string"},
            "properties": {
              "name": {"type": "string", "description": "the name"},
              "meta": {"$ref": "#/definitions/io.k8s.ObjectMeta"},
              "replicas": {"type": "integer", "default": 1},
              "tags": {"type": "array"}
            }}"##,
    );
    let ty = fetcher.json_schema_to_type(&schema).unwrap();
    match ty {
        Type::Record { fields, open } => {
            assert!(open);
            let names: Vec<&str> = fields.iter().map(|f| f.0.as_str()).collect();
            assert_eq!(names, vec!["meta", "name", "replicas", "tags"]);
            assert_eq!(fields[0].1.ty, Type::Reference { name: "io.k8s.ObjectMeta".to_string(), module: None });
            assert!(!fields[0].1.required);
            assert!(fields[1].1.required);
            assert_eq!(fields[1].1.description.as_deref(), Some("the name"));
            assert_eq!(fields[2].1.default, Some(JsonValue::Number("1".to_string())));
            assert_eq!(fields[3].1.ty, Type::Array(Box::new(Type::Any)));
        },
        other => panic!("unexpected {:?}", other),
    }
}

#[test]
fn k8s_schema_closed_object_and_plain_reference() {
    let fetcher = K8sTypesFetcher::new();
    let closed = parse(r#"{"type": "object", "additionalProperties": false}"#);
    assert_eq!(fetcher.json_schema_to_type(&closed).unwrap(), Type::Record { fields: Vec::new(), open: false });
    let bare = parse(r#"{"type": "object"}"#);
    assert_eq!(fetcher.json_schema_to_type(&bare).unwrap(), Type::Record { fields: Vec::new(), open: false });
    let r = parse(r##"{"$ref": "#/definitions/Foo"}"##);
    assert_eq!(fetcher.json_schema_to_type(&r).unwrap(), Type::Reference { name: "Foo".to_string(), module: None });
    let none = parse(r#"{"description": "x"}"#);
    assert_eq!(fetcher.json_schema_to_type(&none).unwrap(), Type::Any);
}

#[test]
fn k8s_type_reference_groups() {
    let fetcher = K8sTypesFetcher::new();
    let core = fetcher.parse_type_reference("io.k8s.api.core.v1.Container").unwrap();
    assert_eq!((core.group.as_str(), core.version.as_str(), core.kind.as_str()), ("k8s.io", "v1", "Container"));
    let meta = fetcher.parse_type_reference("io.k8s.apimachinery.pkg.apis.meta.v1.ObjectMeta").unwrap();
    assert_eq!((meta.group.as_str(), meta.version.as_str(), meta.kind.as_str()), ("k8s.io", "v1", "ObjectMeta"));
    let apps = fetcher.parse_type_reference("io.k8s.api.apps.v1.Deployment").unwrap();
    assert_eq!(apps.group, "apps.k8s.io");
    match fetcher.parse_type_reference("com.example.v1.Thing") {
        Err(ParserError::Parse(msg)) => assert_eq!(msg, "Invalid k8s type name: com.example.v1.Thing"),
        _ => panic!("expected a parse error"),
    }
}

#[test]
fn k8s_core_types_extracted_in_list_order() {
    let fetcher = K8sTypesFetcher::new();
    let doc = parse(
        r#"{"definitions": {
            "io.k8s.api.core.v1.EnvVar": {"type": "object", "description": "env"},
            "io.k8s.api.core.v1.Container": {"type": "object"},
            "io.k8s.api.core.v1.Unrelated": {"type": "string"}
        }}"#,
    );
    let types = fetcher.extract_core_types(&doc).unwrap();
    assert_eq!(types.len(), 2);
    assert_eq!(types[0].0.kind, "Container");
    assert_eq!(types[0].1.name, "Container");
    assert_eq!(types[1].1.name, "EnvVar");
    assert_eq!(types[1].1.documentation.as_deref(), Some("env"));
    assert!(fetcher.extract_core_types(&parse("{}")).unwrap().is_empty());
}

#[test]
fn builtin_k8s_package() {
    let module = generate_k8s_package();
    assert_eq!(module.name, "k8s.io");
    assert_eq!(module.types.len(), 1);
    assert_eq!(module.types[0].name, "ObjectMeta");
    match &module.types[0].ty {
        Type::Record { fields, open } => {
            assert!(*open);
            let names: Vec<&str> = fields.iter().map(|f| f.0.as_str()).collect();
            assert_eq!(names, vec!["annotations", "labels", "name", "namespace", "resourceVersion", "uid"]);
            assert!(fields.iter().all(|f| !f.1.required));
        },
        other => panic!("unexpected {:?}", other),
    }
}
