use amalgam::json::JsonValue;
use amalgam::types::{ContractRule, Field, NumberBounds, Type, ValidationRules};

const NO_BOUNDS: NumberBounds = (None, None, None, None);

#[test]
fn test_validation_rules_merge_string_constraints() {
    let a = ValidationRules {
        min_length: Some(5),
        max_length: Some(100),
        pattern: Some("^[a-z]+$".to_string()),
        ..Default::default()
    };
    let b = ValidationRules {
        min_length: Some(10), // More restrictive
        max_length: Some(50), // More restrictive
        pattern: Some("^[a-z0-9]+$".to_string()),
        ..Default::default()
    };

    let merged = a.merge_with_bounds(&b, NO_BOUNDS);
    assert_eq!(merged.min_length, Some(10)); // Max of minimums
    assert_eq!(merged.max_length, Some(50)); // Min of maximums
    assert!(merged.pattern.is_some()); // Patterns should be merged
}

#[test]
fn test_validation_rules_merge_k8s_extensions() {
    let a = ValidationRules {
        k8s_int_or_string: true,
        k8s_cel_validations: vec!["self.size() > 0".to_string()],
        ..Default::default()
    };
    let b = ValidationRules {
        k8s_preserve_unknown_fields: true,
        k8s_cel_validations: vec!["self.size() < 100".to_string()],
        ..Default::default()
    };

    let merged = a.merge_with_bounds(&b, NO_BOUNDS);
    assert!(merged.k8s_int_or_string);
    assert!(merged.k8s_preserve_unknown_fields);
    assert_eq!(merged.k8s_cel_validations.len(), 2);
}

#[test]
fn test_field_merge_for_allof() {
    let field_a = Field {
        ty: Type::String,
        required: true,
        description: Some("Field A".to_string()),
        default: None,
        validation: Some(ValidationRules {
            min_length: Some(5),
            ..Default::default()
        }),
        contracts: vec![ContractRule {
            name: "check_a".to_string(),
            expression: "self.len() > 0".to_string(),
            description: None,
            error_message: None,
        }],
    };

    let field_b = Field {
        ty: Type::String,
        required: true,
        description: Some("Field B".to_string()),
        default: None,
        validation: Some(ValidationRules {
            max_length: Some(100),
            ..Default::default()
        }),
        contracts: vec![ContractRule {
            name: "check_b".to_string(),
            expression: "self.len() < 200".to_string(),
            description: None,
            error_message: None,
        }],
    };

    let merged = Field::merge_for_allof_with_bounds(&field_a, &field_b, NO_BOUNDS);

    // Same types should not create a union
    assert_eq!(merged.ty, Type::String);
    assert!(merged.required);

    // Validation rules should be merged
    let validation = merged.validation.unwrap();
    assert_eq!(validation.min_length, Some(5));
    assert_eq!(validation.max_length, Some(100));

    // Contracts should be combined
    assert_eq!(merged.contracts.len(), 2);
}

#[test]
fn test_field_merge_different_types() {
    let field_a = Field {
        ty: Type::String,
        required: true,
        description: None,
        default: None,
        validation: None,
        contracts: vec![],
    };

    let field_b = Field {
        ty: Type::Integer,
        required: false,
        description: None,
        default: None,
        validation: None,
        contracts: vec![],
    };

    let merged = Field::merge_for_allof_with_bounds(&field_a, &field_b, NO_BOUNDS);

    // Different types should create a union
    match merged.ty {
        Type::Union { types, .. } => {
            assert_eq!(types.len(), 2);
        }
        _ => panic!("Expected union type"),
    }

    // Required should be AND (true && false = false)
    assert!(!merged.required);
}

#[test]
fn merged_rules_combine_patterns_values_and_flags() {
    let a = ValidationRules {
        pattern: Some("a".to_string()),
        unique_items: Some(false),
        allowed_values: Some(vec![JsonValue::Str("x".to_string()), JsonValue::Str("y".to_string())]),
        k8s_cel_validations: vec!["c1".to_string()],
        ..Default::default()
    };
    let b = ValidationRules {
        pattern: Some("b".to_string()),
        unique_items: Some(true),
        allowed_values: Some(vec![JsonValue::Str("y".to_string()), JsonValue::Str("z".to_string())]),
        k8s_cel_validations: vec!["c1".to_string(), "c2".to_string()],
        ..Default::default()
    };
    let bounds: NumberBounds = (Some("1".to_string()), Some("9".to_string()), None, None);
    let merged = a.merge_with_bounds(&b, bounds);
    assert_eq!(merged.pattern.as_deref(), Some("(?=a$)(?=b$).*"));
    assert_eq!(merged.unique_items, Some(true));
    assert_eq!(merged.allowed_values, Some(vec![JsonValue::Str("y".to_string())]));
    assert_eq!(merged.k8s_cel_validations, vec!["c1".to_string(), "c2".to_string()]);
    assert_eq!(merged.minimum.as_deref(), Some("1"));
    assert_eq!(merged.maximum.as_deref(), Some("9"));

    let disjoint = ValidationRules {
        allowed_values: Some(vec![JsonValue::Str("q".to_string())]),
        ..Default::default()
    };
    let kept = a.merge_with_bounds(&disjoint, NO_BOUNDS);
    assert_eq!(
        kept.allowed_values,
        Some(vec![JsonValue::Str("x".to_string()), JsonValue::Str("y".to_string())])
    );
    let same = a.merge_with_bounds(&a.duplicate(), NO_BOUNDS);
    assert_eq!(same.pattern.as_deref(), Some("a"));
}

#[test]
fn merged_field_prefers_the_new_description_and_default() {
    let old = Field {
        ty: Type::String,
        required: false,
        description: Some("old".to_string()),
        default: Some(JsonValue::Str("d".to_string())),
        validation: Some(ValidationRules { min_length: Some(1), ..Default::default() }),
        contracts: vec![],
    };
    let new = Field {
        ty: Type::String,
        required: true,
        description: None,
        default: None,
        validation: None,
        contracts: vec![],
    };
    let merged = Field::merge_for_allof_with_bounds(&old, &new, NO_BOUNDS);
    assert_eq!(merged.description.as_deref(), Some("old"));
    assert_eq!(merged.default, Some(JsonValue::Str("d".to_string())));
    assert!(!merged.required);
    assert_eq!(merged.validation.unwrap().min_length, Some(1));
}
