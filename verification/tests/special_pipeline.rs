use amalgam::ir::{Metadata, Module, TypeDefinition};
use amalgam::special_cases::{Context, SpecialCasePipeline, WithSpecialCases};
use amalgam::types::{insert_field, Field, Type, UnionCoercion};

fn field(ty: Type) -> Field {
    Field { ty, required: true, description: None, default: None, validation: None, contracts: Vec::new() }
}

fn context(module: &str, source: &str) -> Context {
    Context { current_module: module.to_string(), source_type: source.to_string(), metadata: Vec::new() }
}

#[test]
fn test_pipeline_field_rename() {
    let pipeline = SpecialCasePipeline::new();
    let context = context("test", "openapi");

    let mut fields = Vec::new();
    insert_field(&mut fields, "$ref".to_string(), field(Type::String));

    let mut ty = Type::Record { fields, open: false };

    pipeline.process_type(&mut ty, &context);

    if let Type::Record { fields, .. } = ty {
        assert!(!fields.iter().any(|f| f.0 == "$ref"));
        assert!(fields.iter().any(|f| f.0 == "ref_field"));
    }
}

#[test]
fn references_are_transformed_and_remapped() {
    let pipeline = SpecialCasePipeline::new();
    let ty = Type::Array(Box::new(Type::Reference {
        name: "io.k8s.apimachinery.pkg.apis.meta.v1.ObjectMeta".to_string(),
        module: Some("io.k8s.api.core.v1".to_string()),
    }));
    let out = pipeline.processed(ty, &context("m", "openapi"));
    assert_eq!(
        out,
        Type::Array(Box::new(Type::Reference {
            name: "ObjectMeta".to_string(),
            module: Some("api.core.v1".to_string())
        }))
    );
}

#[test]
fn unions_take_the_coercion_hint_once() {
    let pipeline = SpecialCasePipeline::new();
    let union = Type::Union { types: vec![Type::String, Type::Integer], coercion_hint: None };
    let hinted = pipeline.processed(union, &context("IntOrString", "openapi"));
    assert_eq!(
        hinted,
        Type::Union { types: vec![Type::String, Type::Integer], coercion_hint: Some(UnionCoercion::PreferString) }
    );
    let kept = Type::Union { types: vec![Type::String], coercion_hint: Some(UnionCoercion::PreferNumber) };
    assert_eq!(
        pipeline.processed(kept, &context("IntOrString", "openapi")),
        Type::Union { types: vec![Type::String], coercion_hint: Some(UnionCoercion::PreferNumber) }
    );
    let plain = Type::Union { types: vec![Type::Bool], coercion_hint: None };
    assert_eq!(
        pipeline.processed(plain, &context("Other", "openapi")),
        Type::Union { types: vec![Type::Bool], coercion_hint: None }
    );
}

#[test]
fn modules_are_remapped_and_their_types_processed() {
    let pipeline = SpecialCasePipeline::new();
    let mut fields = Vec::new();
    insert_field(&mut fields, "$ref".to_string(), field(Type::String));
    insert_field(&mut fields, "other".to_string(), field(Type::Bool));
    let mut module = Module {
        name: "io.k8s.api.core.v1".to_string(),
        imports: vec![],
        types: vec![TypeDefinition {
            name: "io.k8s.apimachinery.pkg.apis.meta.v1.Time".to_string(),
            ty: Type::Record { fields, open: false },
            documentation: Some("doc".to_string()),
            annotations: vec![],
        }],
        constants: vec![],
        metadata: Metadata::default(),
    };
    module.apply_special_cases(&pipeline);
    assert_eq!(module.name, "api.core.v1");
    assert_eq!(module.types[0].name, "Time");
    assert_eq!(module.types[0].documentation, Some("doc".to_string()));
    match &module.types[0].ty {
        Type::Record { fields, .. } => {
            let keys: Vec<_> = fields.iter().map(|f| f.0.as_str()).collect();
            assert_eq!(keys, vec!["other", "ref_field"]);
        }
        other => panic!("expected a record, got {:?}", other),
    }
}
