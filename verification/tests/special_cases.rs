use amalgam::special_cases::{
    CoercionStrategy, Context, FieldRename, ImportOverride, ModuleRemapping, SpecialCasePipeline,
    SpecialCaseRegistry, TransformAction, TypeCoercion, TypeTransform,
};

fn context(source: &str) -> Context {
    Context {
        current_module: "test".to_string(),
        source_type: source.to_string(),
        metadata: Vec::new(),
    }
}

#[test]
fn test_type_transform() {
    let registry = SpecialCaseRegistry::default();
    let context = context("openapi");

    let result =
        registry.transform_type_name("io.k8s.apimachinery.pkg.apis.meta.v1.ObjectMeta", &context);
    assert_eq!(result, "ObjectMeta");
}

#[test]
fn test_module_remapping() {
    let registry = SpecialCaseRegistry::default();

    let result = registry.remap_module("io.k8s.api.core.v1");
    assert_eq!(result, "api.core.v1");

    let result = registry.remap_module("io.k8s.apimachinery.pkg.apis.meta.v1");
    assert_eq!(result, "apimachinery.pkg.apis.meta.v1");
}

#[test]
fn test_field_rename() {
    let registry = SpecialCaseRegistry::default();

    let result = registry.get_field_rename("SomeType", "$ref");
    assert_eq!(result, Some("ref_field".to_string()));

    let result = registry.get_field_rename("AnyType", "type");
    assert_eq!(result, None);
}

#[test]
fn test_resolve_import_path_with_pattern() {
    let registry = SpecialCaseRegistry::default();

    let result = registry.resolve_import_path("api.core.v1", "ObjectMeta");
    assert!(result.is_some());
    let path = result.unwrap();
    assert!(path.contains("apimachinery.pkg.apis/meta/v1/mod.ncl"));

    let result = registry.resolve_import_path("api.apps.v1", "ObjectMeta");
    assert!(result.is_some());
    let path = result.unwrap();
    assert!(path.contains("apimachinery.pkg.apis/meta/v1/mod.ncl"));
}

#[test]
fn test_resolve_import_path_runtime_types() {
    let registry = SpecialCaseRegistry::default();

    let result = registry.resolve_import_path("api.core.v1", "IntOrString");
    assert!(result.is_some());
    let path = result.unwrap();
    assert!(path.contains("runtime/v0/mod.ncl"));

    let result = registry.resolve_import_path("api.apps.v1", "Quantity");
    assert!(result.is_some());
    let path = result.unwrap();
    assert!(path.contains("runtime/v0/mod.ncl"));
}

#[test]
fn test_resolve_import_path_version_substitution() {
    let registry = SpecialCaseRegistry::default();

    let result = registry.resolve_import_path("api.core.v1", "LabelSelector");
    assert!(result.is_some());
    assert!(result.unwrap().contains("/v1/"));
}

#[test]
fn test_import_overrides_accessible() {
    let registry = SpecialCaseRegistry::default();

    assert!(!registry.import_overrides().is_empty());

    let has_object_meta = registry
        .import_overrides()
        .iter()
        .any(|o| o.target_type == "ObjectMeta");
    assert!(has_object_meta);
}

#[test]
fn test_pattern_to_regex() {
    let registry = SpecialCaseRegistry::default();

    let regex = registry.pattern_to_regex("io.k8s.api.(.*)");
    assert!(regex.is_some());
    assert!(registry.matches_pattern("io.k8s.api.(.*)", "io.k8s.api.core.v1"));
    assert!(registry.matches_pattern("io.k8s.api.(.*)", "io.k8s.api.apps.v1"));
    assert!(!registry.matches_pattern("io.k8s.api.(.*)", "io.k8s.apimachinery.pkg.apis.meta.v1"));
}

#[test]
fn test_apply_remapping_with_regex() {
    let registry = SpecialCaseRegistry::default();

    let result = registry.remap_module("io.k8s.api.core.v1");
    assert_eq!(result, "api.core.v1");

    let result = registry.remap_module("io.k8s.api.apps.v1");
    assert_eq!(result, "api.apps.v1");

    let result = registry.remap_module("io.k8s.api.batch.v1");
    assert_eq!(result, "api.batch.v1");
}

#[test]
fn test_matches_pattern_with_wildcards() {
    let registry = SpecialCaseRegistry::default();

    assert!(registry.matches_pattern("*", "anything"));
    assert!(registry.matches_pattern("api.*", "api.core.v1"));
    assert!(registry.matches_pattern("*.v1", "api.core.v1"));
    assert!(registry.matches_pattern("*core*", "api.core.v1"));
}

#[test]
fn test_matches_pattern_with_capture_groups() {
    let registry = SpecialCaseRegistry::default();

    assert!(registry.matches_pattern("io.k8s.api.(.*)", "io.k8s.api.core.v1"));
    assert!(registry.matches_pattern("io.k8s.api.(.*)", "io.k8s.api.apps.v1"));
    assert!(!registry.matches_pattern("io.k8s.api.(.*)", "io.k8s.apimachinery.pkg"));
}

#[test]
fn regex_metacharacters_in_patterns_are_literal() {
    let registry = SpecialCaseRegistry::default();
    // `.` is escaped: it only matches a dot.
    assert!(!registry.matches_pattern("a.(.*)", "abc"));
    assert!(registry.matches_pattern("a.(.*)", "a.c"));
    // `(.+)` needs at least one character.
    assert!(!registry.matches_pattern("x.(.+)", "x."));
    // A literal `$` or `+` in a pattern does not act as regex syntax.
    assert!(registry.matches_pattern("a$b(.*)", "a$bzz"));
    assert!(registry.matches_pattern("a+b(.*)", "a+bzz"));
    assert!(!registry.matches_pattern("a+b(.*)", "aabzz"));
}

#[test]
fn pattern_without_wildcards_must_match_exactly() {
    let registry = SpecialCaseRegistry::default();
    assert!(registry.matches_pattern("ObjectMeta", "ObjectMeta"));
    assert!(!registry.matches_pattern("ObjectMeta", "ObjectMetaX"));
    assert!(!registry.matches_pattern("api.*", "apps.v1"));
    assert!(!registry.matches_pattern("*.v2", "api.core.v1"));
}

#[test]
fn remapping_priority_and_order() {
    let mut registry = SpecialCaseRegistry::from_rules(vec![], vec![], vec![], vec![], vec![]);
    let extra = SpecialCaseRegistry::from_rules(
        vec![],
        vec![
            ModuleRemapping { from_pattern: "x.(.*)".to_string(), to_pattern: "low.$1".to_string(), priority: 1 },
            ModuleRemapping { from_pattern: "x.(.*)".to_string(), to_pattern: "high.$1".to_string(), priority: 5 },
            ModuleRemapping { from_pattern: "x.(.*)".to_string(), to_pattern: "tie.$1".to_string(), priority: 5 },
            ModuleRemapping { from_pattern: "y.*".to_string(), to_pattern: "why.$1".to_string(), priority: 0 },
            ModuleRemapping { from_pattern: "z".to_string(), to_pattern: "zed".to_string(), priority: 0 },
        ],
        vec![],
        vec![],
        vec![],
    );
    registry.merge(extra);
    assert_eq!(registry.remap_module("x.a.b"), "high.a.b");
    assert_eq!(registry.remap_module("y.rest"), "why.rest");
    assert_eq!(registry.remap_module("z"), "zed");
    assert_eq!(registry.remap_module("unmatched"), "unmatched");
}

#[test]
fn transforms_apply_in_order_and_respect_context() {
    let registry = SpecialCaseRegistry::from_rules(
        vec![
            TypeTransform {
                pattern: "*Spec".to_string(),
                context: "crd".to_string(),
                transform: TransformAction::RemoveSuffix("Spec".to_string()),
            },
            TypeTransform {
                pattern: "Foo*".to_string(),
                context: "*".to_string(),
                transform: TransformAction::Replace { from: "o".to_string(), to: "0".to_string() },
            },
            TypeTransform {
                pattern: "*".to_string(),
                context: "*".to_string(),
                transform: TransformAction::Function("to_camel_case".to_string()),
            },
        ],
        vec![],
        vec![],
        vec![],
        vec![],
    );
    assert_eq!(registry.transform_type_name("FooSpec", &context("crd")), "f00");
    assert_eq!(registry.transform_type_name("FooSpec", &context("openapi")), "f00Spec");
    assert_eq!(registry.transform_type_name("BarSpec", &context("openapi")), "barSpec");
}

#[test]
fn exact_override_wins_and_pattern_override_substitutes() {
    let registry = SpecialCaseRegistry::from_rules(
        vec![],
        vec![],
        vec![
            ImportOverride {
                from_module: "*".to_string(),
                target_type: "*".to_string(),
                import_path: "../$version/$type.ncl".to_string(),
                reason: "generic".to_string(),
            },
            ImportOverride {
                from_module: "api.core.v1beta2".to_string(),
                target_type: "Pod".to_string(),
                import_path: "exact.ncl".to_string(),
                reason: "exact".to_string(),
            },
        ],
        vec![],
        vec![],
    );
    assert_eq!(registry.resolve_import_path("api.core.v1beta2", "Pod"), Some("exact.ncl".to_string()));
    assert_eq!(
        registry.resolve_import_path("api.core.v1beta2", "Service"),
        Some("../v1beta2/Service.ncl".to_string())
    );
    assert_eq!(registry.resolve_import_path("nothing", "Service"), Some("../v1/Service.ncl".to_string()));
    assert!(registry.get_import_override("api.core.v1beta2", "Service").is_none());
    assert_eq!(
        registry.get_import_override("api.core.v1beta2", "Pod").map(|o| o.reason.clone()),
        Some("exact".to_string())
    );
}

#[test]
fn coercion_strategy_first_match() {
    let registry = SpecialCaseRegistry::default();
    assert!(matches!(registry.get_coercion_strategy("IntOrString"), Some(CoercionStrategy::PreferString)));
    assert!(registry.get_coercion_strategy("Quantity").is_none());

    let custom = SpecialCaseRegistry::from_rules(
        vec![],
        vec![],
        vec![],
        vec![FieldRename { type_pattern: "Pod*".to_string(), from_field: "x".to_string(), to_field: "y".to_string() }],
        vec![
            TypeCoercion { type_pattern: "Int*".to_string(), strategy: CoercionStrategy::PreferNumber },
            TypeCoercion { type_pattern: "*".to_string(), strategy: CoercionStrategy::PreferFirst },
        ],
    );
    assert!(matches!(custom.get_coercion_strategy("IntThing"), Some(CoercionStrategy::PreferNumber)));
    assert!(matches!(custom.get_coercion_strategy("Other"), Some(CoercionStrategy::PreferFirst)));
    assert_eq!(custom.get_field_rename("PodSpec", "x"), Some("y".to_string()));
    assert_eq!(custom.get_field_rename("Service", "x"), None);
}

#[test]
fn pipeline_exact_override_only() {
    let pipeline = SpecialCasePipeline::new();
    assert!(pipeline.get_import_override("api.core.v1", "ObjectMeta").is_none());
    let with = SpecialCasePipeline::with_registry(SpecialCaseRegistry::from_rules(
        vec![],
        vec![],
        vec![ImportOverride {
            from_module: "m".to_string(),
            target_type: "T".to_string(),
            import_path: "p.ncl".to_string(),
            reason: "r".to_string(),
        }],
        vec![],
        vec![],
    ));
    assert_eq!(with.get_import_override("m", "T"), Some("p.ncl".to_string()));
}
