use std::sync::Arc;

use amalgam::compilation_unit::CompilationUnit;
use amalgam::ir::{Metadata, Module, TypeDefinition};
use amalgam::module_registry::ModuleRegistry;
use amalgam::pipeline::CoreError;
use amalgam::types::{insert_field, Field, Type};

fn field(ty: Type) -> Field {
    Field { ty, required: false, description: None, default: None, validation: None, contracts: vec![] }
}

fn reference(name: &str, module: Option<&str>) -> Type {
    Type::Reference { name: name.to_string(), module: module.map(|m| m.to_string()) }
}

fn def(name: &str, ty: Type) -> TypeDefinition {
    TypeDefinition { name: name.to_string(), ty, documentation: None, annotations: Vec::new() }
}

fn module(name: &str, types: Vec<TypeDefinition>) -> Module {
    Module { name: name.to_string(), imports: Vec::new(), types, constants: Vec::new(), metadata: Metadata::default() }
}

fn record(fields: Vec<(&str, Type)>) -> Type {
    let mut fs = Vec::new();
    for (n, t) in fields {
        insert_field(&mut fs, n.to_string(), field(t));
    }
    Type::Record { fields: fs, open: false }
}

#[test]
fn references_imports_and_order() {
    let mut unit = CompilationUnit::new(Arc::new(ModuleRegistry::new()));
    let a = module(
        "a.v1",
        vec![def(
            "Foo",
            record(vec![
                ("bar", reference("Bar", None)),
                ("ext", Type::Array(Box::new(reference("Baz", Some("b.v1"))))),
                ("own", reference("Foo", None)),
                ("same", reference("Foo", Some("a.v1"))),
            ]),
        )],
    );
    let b = module("b.v1", vec![def("Bar", Type::String), def("Baz", Type::Integer)]);
    assert!(unit.analyze_modules(vec![a, b]).is_ok());

    assert_eq!(unit.global_symbol_table.len(), 3);
    assert_eq!(unit.global_symbol_table[1].canonical_ref, "b.v1.Bar");
    assert_eq!(unit.modules[0].external_refs, vec!["b.v1.Bar".to_string(), "b.v1.Baz".to_string()]);
    assert_eq!(unit.modules[0].provided_types, vec!["Foo".to_string()]);
    assert!(unit.modules[1].external_refs.is_empty());
    assert_eq!(
        unit.get_module_imports("a.v1"),
        Some(&vec![("b.v1".to_string(), vec!["Bar".to_string(), "Baz".to_string()])])
    );
    assert_eq!(unit.get_module_imports("b.v1"), Some(&Vec::new()));
    assert!(unit.get_module_imports("c.v1").is_none());
    assert!(!unit.has_circular_dependencies());
    assert_eq!(unit.get_modules_in_order().unwrap(), vec!["a.v1".to_string(), "b.v1".to_string()]);
}

#[test]
fn mutual_references_are_circular() {
    let mut unit = CompilationUnit::new(Arc::new(ModuleRegistry::new()));
    let a = module("a.v1", vec![def("A", reference("B", Some("b.v1")))]);
    let b = module("b.v1", vec![def("B", reference("A", Some("a.v1")))]);
    unit.analyze_modules(vec![a, b]).unwrap();
    assert!(unit.has_circular_dependencies());
    match unit.get_modules_in_order() {
        Err(CoreError::CircularDependency(msg)) => assert_eq!(msg, "Circular dependency detected in module graph"),
        _ => panic!("expected a circular dependency"),
    }
}

#[test]
fn unknown_reference_kept_as_written_without_edge() {
    let mut unit = CompilationUnit::new(Arc::new(ModuleRegistry::new()));
    let a = module("a.v1", vec![def("A", Type::Optional(Box::new(reference("Missing", None))))]);
    unit.analyze_modules(vec![a]).unwrap();
    assert_eq!(unit.modules[0].external_refs, vec!["Missing".to_string()]);
    assert_eq!(unit.get_module_imports("a.v1"), Some(&Vec::new()));
    assert_eq!(unit.get_modules_in_order().unwrap(), vec!["a.v1".to_string()]);
}
