use amalgam::json::JsonValue;
use amalgam::k8s_authoritative::K8sAuthoritativeTypes;
use amalgam::k8s_imports::find_k8s_type_references;
use amalgam::types::{insert_field, Field, Type, ValidationRules};

fn field(ty: Type) -> Field {
    Field { ty, required: false, description: None, default: None, validation: None, contracts: vec![] }
}

fn reference(name: &str) -> Type {
    Type::Reference { name: name.to_string(), module: None }
}

#[test]
fn metadata_record_becomes_object_meta() {
    let k8s = K8sAuthoritativeTypes::new();
    let empty = Type::Record { fields: Vec::new(), open: false };
    assert_eq!(
        k8s.should_replace_field("metadata", &empty),
        Some("k8s.io/apimachinery/pkg/apis/meta/v1.ObjectMeta".to_string())
    );
    let mut fields = Vec::new();
    insert_field(&mut fields, "name".to_string(), field(Type::String));
    let full = Type::Record { fields, open: false };
    assert_eq!(k8s.should_replace_field("metadata", &full), None);
    assert_eq!(k8s.should_replace_field("status", &empty), None);
}

#[test]
fn field_replacements_depend_on_context() {
    let k8s = K8sAuthoritativeTypes::new();
    let array = Type::Array(Box::new(Type::Any));
    let record = Type::Record { fields: Vec::new(), open: true };
    let map = Type::Mapping { key: Box::new(Type::String), value: Box::new(Type::String) };
    assert_eq!(
        k8s.get_field_replacements("containers", &array, Some("spec")),
        Some("[]k8s.io/api/core/v1.Container".to_string())
    );
    assert_eq!(k8s.get_field_replacements("containers", &array, Some("template")), None);
    assert_eq!(k8s.get_field_replacements("containers", &array, None), None);
    assert_eq!(
        k8s.get_field_replacements("volumeMounts", &array, None),
        Some("[]k8s.io/api/core/v1.VolumeMount".to_string())
    );
    assert_eq!(
        k8s.get_field_replacements("selector", &record, None),
        Some("k8s.io/apimachinery/pkg/apis/meta/v1.LabelSelector".to_string())
    );
    assert_eq!(k8s.get_field_replacements("selector", &array, None), None);
    assert_eq!(k8s.get_field_replacements("nodeSelector", &map, None), Some("map[string]string".to_string()));
    assert_eq!(
        k8s.get_field_replacements("metadata", &record, None),
        Some("k8s.io/apimachinery/pkg/apis/meta/v1.ObjectMeta".to_string())
    );
    assert_eq!(k8s.get_field_replacements("unknown", &record, None), None);
}

#[test]
fn k8s_references_found_once_in_order() {
    let mut fields = Vec::new();
    insert_field(&mut fields, "b".to_string(), field(Type::Array(Box::new(reference("ObjectMeta")))));
    insert_field(&mut fields, "a".to_string(), field(reference("Time")));
    insert_field(&mut fields, "c".to_string(), field(reference("Pod")));
    let ty = Type::Union {
        types: vec![Type::Record { fields, open: false }, Type::Optional(Box::new(reference("Time")))],
        coercion_hint: None,
    };
    assert_eq!(find_k8s_type_references(&ty), vec!["Time".to_string(), "ObjectMeta".to_string()]);
    assert!(find_k8s_type_references(&Type::String).is_empty());
}

#[test]
fn validation_rule_constructors() {
    assert!(ValidationRules::default().is_empty());
    let s = ValidationRules::string_constraints(Some(1), Some(5), Some("^a".to_string()));
    assert_eq!(s.min_length, Some(1));
    assert_eq!(s.max_length, Some(5));
    assert_eq!(s.pattern.as_deref(), Some("^a"));
    assert!(!s.is_empty());
    let n = ValidationRules::number_constraints(Some("0".to_string()), Some("10.5".to_string()));
    assert_eq!(n.minimum.as_deref(), Some("0"));
    assert_eq!(n.maximum.as_deref(), Some("10.5"));
    let e = ValidationRules::enum_values(vec![JsonValue::Str("a".to_string())]);
    assert_eq!(e.allowed_values.as_ref().map(|v| v.len()), Some(1));
    let i = ValidationRules::int_or_string();
    assert!(i.k8s_int_or_string);
    assert!(!i.is_empty());
}
