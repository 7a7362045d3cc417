use amalgam::type_system::TypeSystem;
use amalgam::types::Type;

#[test]
fn test_type_compatibility() {
    let mut ts = TypeSystem::new();

    ts.register("MyString".to_string(), Type::String);

    assert!(ts.is_compatible(&Type::String, &Type::String));
    assert!(ts.is_compatible(&Type::Integer, &Type::Number));
    assert!(ts.is_compatible(&Type::Null, &Type::Optional(Box::new(Type::String))));

    assert!(ts.is_compatible(&Type::Reference { name: "MyString".to_string(), module: None }, &Type::String));

    let union = Type::Union { types: vec![Type::String, Type::Number], coercion_hint: None };
    assert!(ts.is_compatible(&Type::String, &union));
    assert!(ts.is_compatible(&Type::Number, &union));
    assert!(!ts.is_compatible(&Type::Bool, &union));
}

#[test]
fn compatibility_edge_cases() {
    let mut ts = TypeSystem::default();
    ts.register("Id".to_string(), Type::Integer);
    ts.register("Id".to_string(), Type::String);
    let id = Type::Reference { name: "Id".to_string(), module: None };
    // The later registration counts.
    assert!(ts.is_compatible(&id, &Type::String));
    assert!(!ts.is_compatible(&id, &Type::Integer));
    assert_eq!(ts.resolve("Id"), Some(&Type::String));
    assert!(ts.resolve("Other").is_none());
    // An unregistered name is accepted nowhere, not even by itself.
    let other = Type::Reference { name: "Other".to_string(), module: None };
    assert!(!ts.is_compatible(&other, &other));
    assert!(ts.is_compatible(&other, &Type::Any));
    // Arrays by their items; a union source needs every member to fit.
    let ints = Type::Array(Box::new(Type::Integer));
    let nums = Type::Array(Box::new(Type::Number));
    assert!(ts.is_compatible(&ints, &nums));
    assert!(!ts.is_compatible(&nums, &ints));
    let mixed = Type::Union { types: vec![Type::Integer, Type::Number], coercion_hint: None };
    assert!(ts.is_compatible(&mixed, &Type::Number));
    assert!(!ts.is_compatible(&mixed, &Type::Integer));
    assert!(ts.is_compatible(&Type::String, &Type::Optional(Box::new(id))));
}

#[test]
fn alias_chains_can_be_checked_before_comparing() {
    let mut ts = TypeSystem::new();
    ts.register("Loop".to_string(), Type::Reference { name: "Loop".to_string(), module: None });
    ts.register("Name".to_string(), Type::String);
    ts.register("Alias".to_string(), Type::Reference { name: "Name".to_string(), module: None });
    let looping = Type::Reference { name: "Loop".to_string(), module: None };
    let alias = Type::Reference { name: "Alias".to_string(), module: None };
    assert!(!ts.settles_within(&looping, 10));
    assert!(ts.settles_within(&alias, 2));
    assert!(!ts.settles_within(&alias, 1));
    assert_eq!(ts.is_compatible_within(&looping, &Type::String, 10), None);
    assert_eq!(ts.is_compatible_within(&alias, &Type::String, 2), Some(true));
    assert_eq!(ts.is_compatible_within(&alias, &Type::Integer, 2), Some(false));
}
