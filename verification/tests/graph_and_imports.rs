use amalgam::dependency_graph::{DependencyGraph, TypeNode};
use amalgam::import_calculator::ImportPathCalculator;
use amalgam::imports::TypeReference;
use amalgam::k8s_authoritative::K8sTypePatterns;
use amalgam::ir::{Metadata, Module, TypeDefinition, IR};
use amalgam::module_registry::{DependencyType, ModuleDependencyGraph, ModuleInfo, ModuleLayout, ModuleRegistry};
use amalgam::pipeline::CoreError;
use amalgam::types::Type;
use amalgam::pipeline::PerformanceMetrics;
use amalgam::types::ContractRule;

fn module(name: &str, types: &[&str]) -> Module {
    Module {
        name: name.to_string(),
        imports: Vec::new(),
        types: types
            .iter()
            .map(|t| TypeDefinition { name: t.to_string(), ty: Type::String, documentation: None, annotations: Vec::new() })
            .collect(),
        constants: Vec::new(),
        metadata: Metadata::default(),
    }
}

fn node(kind: &str) -> TypeNode {
    TypeNode::new("test".to_string(), "v1".to_string(), kind.to_string())
}

#[test]
fn test_performance_metrics_combine() {
    let metrics1 = PerformanceMetrics {
        parsing_time_ms: 100,
        transformation_time_ms: 200,
        layout_time_ms: 50,
        generation_time_ms: 150,
        io_time_ms: 30,
        cache_hits: 10,
        cache_misses: 5,
    };

    let metrics2 = PerformanceMetrics {
        parsing_time_ms: 80,
        transformation_time_ms: 120,
        layout_time_ms: 40,
        generation_time_ms: 100,
        io_time_ms: 20,
        cache_hits: 8,
        cache_misses: 3,
    };

    let combined = metrics1.combine(&metrics2);

    assert_eq!(combined.parsing_time_ms, 180);
    assert_eq!(combined.transformation_time_ms, 320);
    assert_eq!(combined.layout_time_ms, 90);
    assert_eq!(combined.generation_time_ms, 250);
    assert_eq!(combined.io_time_ms, 50);
    assert_eq!(combined.cache_hits, 18);
    assert_eq!(combined.cache_misses, 8);
}

fn rule(name: &str, expression: &str) -> ContractRule {
    ContractRule {
        name: name.to_string(),
        expression: expression.to_string(),
        description: None,
        error_message: None,
    }
}

#[test]
fn test_contract_rule_merge() {
    let contracts_a = vec![rule("rule1", "expr1"), rule("rule2", "expr2")];
    let contracts_b = vec![rule("rule2", "expr2_new"), rule("rule3", "expr3")];

    let merged = ContractRule::merge_contracts(&contracts_a, &contracts_b);

    assert_eq!(merged.len(), 3);
    assert!(merged.iter().any(|c| c.name == "rule1"));
    assert!(merged.iter().any(|c| c.name == "rule2"));
    assert!(merged.iter().any(|c| c.name == "rule3"));
}

#[test]
fn contract_merge_keeps_first_definition_and_order() {
    let a = vec![rule("rule1", "expr1"), rule("rule2", "expr2")];
    let b = vec![rule("rule2", "expr2_new"), rule("rule3", "expr3")];
    let merged = ContractRule::merge_contracts(&a, &b);
    let names: Vec<&str> = merged.iter().map(|c| c.name.as_str()).collect();
    assert_eq!(names, vec!["rule1", "rule2", "rule3"]);
    assert_eq!(merged[1].expression, "expr2");
    assert_eq!(merged[2].expression, "expr3");
}

#[test]
fn test_topological_sort() {
    let mut graph = DependencyGraph::new();

    let a = node("A");
    let b = node("B");
    let c = node("C");

    graph.add_node(a.clone());
    graph.add_node(b.clone());
    graph.add_node(c.clone());

    graph.add_dependency(a.clone(), b.clone());
    graph.add_dependency(b.clone(), c.clone());

    let sorted = graph.topological_sort().unwrap();

    assert_eq!(sorted[0], c);
    assert_eq!(sorted[1], b);
    assert_eq!(sorted[2], a);
}

#[test]
fn dependency_graph_test_cycle_detection() {
    let mut graph = DependencyGraph::new();

    let a = node("A");
    let b = node("B");
    let c = node("C");

    graph.add_node(a.clone());
    graph.add_node(b.clone());
    graph.add_node(c.clone());

    graph.add_dependency(a.clone(), b.clone());
    graph.add_dependency(b.clone(), c.clone());
    graph.add_dependency(c.clone(), a.clone());

    let result = graph.topological_sort();
    assert!(result.is_err());

    if let Err(e) = result {
        assert!(!e.cycle.is_empty());
    }
}

#[test]
fn self_dependency_is_a_cycle() {
    let mut graph = DependencyGraph::new();
    let a = node("A");
    graph.add_node(a.clone());
    graph.add_dependency(a.clone(), a.clone());
    let result = graph.topological_sort();
    assert!(result.is_err());
}

#[test]
fn empty_graph_sorts_to_nothing() {
    let graph = DependencyGraph::new();
    assert_eq!(graph.topological_sort().unwrap().len(), 0);
}

#[test]
fn dependency_queries() {
    let mut graph = DependencyGraph::new();
    let a = node("A");
    let b = node("B");
    let c = node("C");
    let d = node("D");
    graph.add_node(a.clone());
    graph.add_node(b.clone());
    graph.add_node(c.clone());
    graph.add_node(d.clone());
    graph.add_dependency(a.clone(), b.clone());
    graph.add_dependency(b.clone(), c.clone());

    assert_eq!(graph.dependencies_of(&a).unwrap(), vec![b.clone()]);
    assert_eq!(graph.dependents_of(&c).unwrap(), vec![b.clone()]);
    assert!(graph.dependencies_of(&d).unwrap().is_empty());
    assert!(graph.dependencies_of(&node("Z")).is_none());

    let trans = graph.transitive_dependencies(&a);
    assert_eq!(trans.len(), 2);
    assert!(trans.contains(&b));
    assert!(trans.contains(&c));

    assert!(graph.has_path(&a, &c));
    assert!(!graph.has_path(&c, &a));
    assert!(!graph.has_path(&a, &d));
}

#[test]
fn dependents_invert_dependencies_and_paths_follow_chains() {
    let mut graph = DependencyGraph::new();
    let nodes: Vec<TypeNode> = ["A", "B", "C", "D", "E"].iter().map(|k| node(k)).collect();
    graph.add_node(nodes[4].clone());
    graph.add_dependency(nodes[0].clone(), nodes[1].clone());
    graph.add_dependency(nodes[0].clone(), nodes[2].clone());
    graph.add_dependency(nodes[1].clone(), nodes[2].clone());
    graph.add_dependency(nodes[2].clone(), nodes[3].clone());
    for x in &nodes {
        for y in &nodes {
            let forward = graph.dependencies_of(x).map_or(false, |s| s.contains(y));
            let backward = graph.dependents_of(y).map_or(false, |s| s.contains(x));
            assert_eq!(forward, backward);
        }
    }
    for x in &nodes {
        for y in &nodes {
            for z in &nodes {
                if graph.has_path(x, y) && graph.has_path(y, z) {
                    assert!(graph.has_path(x, z));
                }
            }
        }
        assert!(!graph.has_path(x, x));
    }
    assert!(graph.has_path(&nodes[0], &nodes[3]));
    assert!(!graph.has_path(&nodes[3], &nodes[0]));
}

#[test]
fn type_node_full_name() {
    let n = TypeNode::new("k8s.io".to_string(), "v1".to_string(), "Pod".to_string());
    assert_eq!(n.full_name(), "k8s.io/v1/Pod");
}

#[test]
fn test_parse_qualified_name() {
    let ref1 = TypeReference::from_qualified_name("io.k8s.api.core.v1.ObjectMeta");
    assert!(ref1.is_some());
    let ref1 = ref1.unwrap();
    assert_eq!(ref1.group, "k8s.io");
    assert_eq!(ref1.version, "v1");
    assert_eq!(ref1.kind, "ObjectMeta");

    let ref2 = TypeReference::from_qualified_name("v1.Volume");
    assert!(ref2.is_some());
    let ref2 = ref2.unwrap();
    assert_eq!(ref2.group, "k8s.io");
    assert_eq!(ref2.version, "v1");
    assert_eq!(ref2.kind, "Volume");
}

#[test]
fn qualified_name_without_version_is_rejected() {
    assert!(TypeReference::from_qualified_name("ObjectMeta").is_none());
    assert!(TypeReference::from_qualified_name("").is_none());
}

#[test]
fn test_import_path() {
    let type_ref = TypeReference::new("k8s.io".to_string(), "v1".to_string(), "ObjectMeta".to_string());

    let path = type_ref.import_path("apiextensions.crossplane.io", "v1");
    assert_eq!(path, "../../../../k8s_io/v1/objectmeta.ncl");

    let path2 = type_ref.import_path("example.io", "v1");
    assert_eq!(path2, "../../k8s_io/v1/objectmeta.ncl");

    let path3 = type_ref.import_path("k8s.io", "v1beta1");
    assert_eq!(path3, "../v1/objectmeta.ncl");

    let path4 = type_ref.import_path("k8s.io", "v1");
    assert_eq!(path4, "./objectmeta.ncl");
}

#[test]
fn test_type_patterns() {
    let patterns = K8sTypePatterns::new();

    assert_eq!(
        patterns.get_go_type("metadata"),
        Some(&"k8s.io/apimachinery/pkg/apis/meta/v1.ObjectMeta".to_string())
    );

    assert_eq!(
        patterns.get_contextual_type("volumes", &["spec"]),
        Some(&"[]k8s.io/api/core/v1.Volume".to_string())
    );
}

#[test]
fn type_patterns_unknown_field() {
    let patterns = K8sTypePatterns::new();
    assert_eq!(patterns.get_go_type("nonexistent"), None);
    assert_eq!(patterns.get_contextual_type("nonexistent", &["spec"]), None);
}

fn test_calculator() -> ImportPathCalculator {
    ImportPathCalculator::from_registry(ModuleRegistry::new())
}

#[test]
fn test_same_package_same_version() {
    let calc = test_calculator();
    let path = calc.calculate("k8s.io", "v1", "k8s.io", "v1", "pod");
    assert_eq!(path, "./pod.ncl");
}

#[test]
fn test_same_package_different_version() {
    let calc = test_calculator();
    let path = calc.calculate("k8s.io", "v1beta1", "k8s.io", "v1", "ObjectMeta");
    assert_eq!(path, "../v1/ObjectMeta.ncl");
}

#[test]
fn test_cross_package_import() {
    let calc = test_calculator();
    let path = calc.calculate("apiextensions.crossplane.io", "v1", "k8s.io", "v1", "ObjectMeta");
    assert!(path.contains("k8s_io"));
    assert!(path.contains("v1"));
    assert!(path.contains("ObjectMeta.ncl"));
}

#[test]
fn test_crossplane_to_k8s_path() {
    let calc = test_calculator();
    let path = calc.calculate("ops.crossplane.io", "v1alpha1", "k8s.io", "v1", "ObjectMeta");
    assert_eq!(path, "../../k8s_io/v1/ObjectMeta.ncl");
}

#[test]
fn test_calculate_with_alias() {
    let calc = test_calculator();

    let (path, alias) = calc.calculate_with_alias("k8s.io", "v1", "k8s.io", "v1", "Pod");
    assert_eq!(path, "./Pod.ncl");
    assert_eq!(alias, "pod");

    let (path, alias) = calc.calculate_with_alias("k8s.io", "v1beta1", "k8s.io", "v1", "ObjectMeta");
    assert_eq!(path, "../v1/ObjectMeta.ncl");
    assert_eq!(alias, "objectMeta");

    let (path, alias) =
        calc.calculate_with_alias("apiextensions.crossplane.io", "v1", "k8s.io", "v1", "ObjectMeta");
    assert!(path.contains("ObjectMeta.ncl"));
    assert_eq!(alias, "k8s_objectMeta");
}

#[test]
fn alias_carries_version_other_than_v1() {
    let calc = ImportPathCalculator::new_standalone();
    let (_, alias) =
        calc.calculate_with_alias("apiextensions.crossplane.io", "v1", "k8s.io", "v1beta1", "ObjectMeta");
    assert_eq!(alias, "k8s_v1beta1_objectMeta");
    let (_, alias) = calc.calculate_with_alias("k8s.io", "v1", "pkg.crossplane.io", "v1", "Provider");
    assert_eq!(alias, "pkg_provider");
}

#[test]
fn test_requires_import() {
    let calc = test_calculator();
    assert!(!calc.requires_import("k8s.io", "v1", "k8s.io", "v1"));
    assert!(calc.requires_import("k8s.io", "v1beta1", "k8s.io", "v1"));
    assert!(calc.requires_import("apiextensions.crossplane.io", "v1", "k8s.io", "v1"));
}

#[test]
fn test_is_cross_version_import() {
    let calc = test_calculator();
    assert!(!calc.is_cross_version_import("k8s.io", "v1", "k8s.io", "v1"));
    assert!(calc.is_cross_version_import("k8s.io", "v1beta1", "k8s.io", "v1"));
    assert!(!calc.is_cross_version_import("apiextensions.crossplane.io", "v1", "k8s.io", "v1"));
}

#[test]
fn cross_package_import_detection() {
    let calc = test_calculator();
    assert!(calc.is_cross_package_import("apiextensions.crossplane.io", "v1", "k8s.io", "v1"));
    assert!(!calc.is_cross_package_import("k8s.io", "v1beta1", "k8s.io", "v1"));
}

#[test]
fn test_v1alpha3_same_version() {
    let calc = test_calculator();
    let path = calc.calculate("k8s.io", "v1alpha3", "k8s.io", "v1alpha3", "celdeviceselector");
    assert_eq!(path, "./celdeviceselector.ncl");
}

#[test]
fn test_raw_extension_to_v0() {
    let calc = test_calculator();
    let path = calc.calculate("k8s.io", "v1", "k8s.io", "v0", "rawextension");
    assert_eq!(path, "../v0/rawextension.ncl");
}

#[test]
fn group_path_and_alias_helpers() {
    assert_eq!(ImportPathCalculator::group_to_path("k8s.io"), vec!["k8s_io".to_string()]);
    assert_eq!(ImportPathCalculator::group_to_path(""), vec!["core".to_string()]);
    assert_eq!(
        ImportPathCalculator::group_to_path("apiextensions.crossplane.io"),
        vec!["apiextensions_crossplane_io".to_string()]
    );
    assert_eq!(ImportPathCalculator::group_to_alias("apiextensions.crossplane.io"), "apiextensions");
    assert_eq!(ImportPathCalculator::group_to_alias(""), "core");
    let from = vec!["a".to_string(), "b".to_string()];
    let to = vec!["c".to_string()];
    assert_eq!(ImportPathCalculator::calculate_relative_path(&from, &to), "../../../c");
}

#[test]
fn test_parse_module_name() {
    let cases = vec![
        ("k8s.io.v1", ("k8s.io", "v1")),
        ("k8s.io.v1alpha3", ("k8s.io", "v1alpha3")),
        ("k8s.io.v0", ("k8s.io", "v0")),
        ("apiextensions.crossplane.io.v1", ("apiextensions.crossplane.io", "v1")),
        ("k8s.io.resource", ("k8s.io", "resource")),
    ];

    for (input, (expected_group, expected_version)) in cases {
        let (group, version) = ModuleRegistry::parse_module_name(input);
        assert_eq!(group, expected_group, "Failed for {}", input);
        assert_eq!(version, expected_version, "Failed for {}", input);
    }
}

#[test]
fn test_extract_domain_namespace() {
    let cases = vec![
        ("k8s.io", ("k8s.io", "core")),
        ("apiextensions.crossplane.io", ("crossplane.io", "apiextensions")),
        ("pkg.crossplane.io", ("crossplane.io", "pkg")),
        ("example.com", ("example.com", "default")),
        ("api.example.com", ("example.com", "api")),
        ("", ("local://", "core")),
        ("mypackage", ("local://mypackage", "default")),
    ];

    for (input, (expected_domain, expected_namespace)) in cases {
        let (domain, namespace) = ModuleRegistry::extract_domain_namespace(input);
        assert_eq!(domain, expected_domain, "Failed domain for {}", input);
        assert_eq!(namespace, expected_namespace, "Failed namespace for {}", input);
    }
}

#[test]
fn test_detect_layout() {
    let cases = vec![
        ("k8s.io", ModuleLayout::MixedRoot),
        ("apiextensions.crossplane.io", ModuleLayout::NamespacedFlat),
        ("pkg.crossplane.io", ModuleLayout::NamespacedFlat),
        ("example.com", ModuleLayout::MixedRoot),
        ("", ModuleLayout::Flat),
        ("mypackage", ModuleLayout::Flat),
    ];

    for (input, expected_layout) in cases {
        let layout = ModuleRegistry::detect_layout(input);
        assert_eq!(layout, expected_layout, "Failed layout for {}", input);
    }
}

fn parts(path: &str) -> Vec<String> {
    path.split('/').map(|s| s.to_string()).collect()
}

#[test]
fn test_calculate_paths() {
    let cases = vec![
        ("k8s.io", "v1", (parts("k8s_io"), parts("k8s_io/v1"))),
        ("example.io", "v1", (parts("example_io"), parts("example_io/v1"))),
        (
            "apiextensions.crossplane.io",
            "v1",
            (
                parts("crossplane/apiextensions.crossplane.io"),
                parts("crossplane/apiextensions.crossplane.io"),
            ),
        ),
    ];

    for (group, version, (expected_root, expected_path)) in cases {
        let (root, path) = ModuleRegistry::calculate_paths(group, version);
        assert_eq!(root, expected_root, "Failed root for {}", group);
        assert_eq!(path, expected_path, "Failed path for {}", group);
    }
}

#[test]
fn test_import_path_calculation() {
    let mut registry = ModuleRegistry::new();

    registry.register_module(&module("k8s.io.v1", &["Pod", "ObjectMeta"]));
    registry.register_module(&module("k8s.io.v1alpha3", &["ObjectMeta"]));
    registry.register_module(&module("example.io.v1", &["ObjectMeta"]));

    assert_eq!(
        registry.calculate_import_path("k8s.io.v1", "k8s.io.v1", "Pod"),
        Some("./Pod.ncl".to_string())
    );

    assert_eq!(
        registry.calculate_import_path("k8s.io.v1alpha3", "k8s.io.v1", "ObjectMeta"),
        Some("../../apimachinery.pkg.apis/meta/v1/mod.ncl".to_string())
    );

    assert_eq!(
        registry.calculate_import_path("example.io.v1", "k8s.io.v1", "ObjectMeta"),
        Some("../k8s_io/apimachinery.pkg.apis/meta/v1/mod.ncl".to_string())
    );
}

#[test]
fn registered_module_is_found() {
    let mut registry = ModuleRegistry::new();
    registry.register_module(&module("k8s.io.v1", &["Pod"]));
    let info = registry.get("k8s.io.v1").unwrap();
    assert_eq!(info.group, "k8s.io");
    assert_eq!(info.version, "v1");
    assert_eq!(info.namespace, "core");
    assert_eq!(info.layout, ModuleLayout::MixedRoot);
    assert_eq!(info.path, parts("k8s_io/v1"));
    assert!(registry.get("k8s.io.v2").is_none());
    assert_eq!(registry.find_module_for_type("Pod").unwrap().name, "k8s.io.v1");
    assert!(registry.find_module_for_type("Service").is_none());
    assert!(registry.requires_import("k8s.io.v1", "k8s.io.v2"));
    assert!(!registry.requires_import("k8s.io.v1", "k8s.io.v1"));
    assert_eq!(registry.calculate_import_path("k8s.io.v1", "k8s.io.v2", "Pod"), None);
}

#[test]
fn test_deeply_nested_module_depth_calculation() {
    assert_eq!(
        ModuleRegistry::calculate_module_filesystem_depth("io.k8s.kube-aggregator.pkg.apis.apiregistration.v1"),
        6
    );
    assert_eq!(
        ModuleRegistry::calculate_module_filesystem_depth("io.k8s.apiextensions-apiserver.pkg.apis.apiextensions.v1"),
        6
    );
    assert_eq!(ModuleRegistry::calculate_module_filesystem_depth("k8s.io.v1"), 2);
    assert_eq!(ModuleRegistry::calculate_module_filesystem_depth("apiextensions.crossplane.io.v1"), 1);
    assert_eq!(ModuleRegistry::calculate_module_filesystem_depth("apimachinery.pkg.apis.meta.v1"), 3);
}

#[test]
fn version_module_sits_at_the_package_root() {
    assert_eq!(ModuleRegistry::calculate_module_filesystem_depth("k8s.io.version"), 0);
    assert_eq!(ModuleRegistry::calculate_module_filesystem_depth("k8s.io.versions"), 2);
}

#[test]
fn parent_path_of_depth() {
    assert_eq!(ModuleRegistry::generate_parent_path(0), ".");
    assert_eq!(ModuleRegistry::generate_parent_path(2), "../..");
}

fn info(name: &str, version: &str) -> ModuleInfo {
    ModuleInfo {
        name: name.to_string(),
        domain: "test.com".to_string(),
        namespace: "default".to_string(),
        group: "test".to_string(),
        version: version.to_string(),
        layout: ModuleLayout::MixedRoot,
        path: vec!["test".to_string(), version.to_string()],
        package_root: vec!["test".to_string()],
        type_names: Vec::new(),
    }
}

#[test]
fn test_debug_data_export_import() {
    let mut registry = ModuleRegistry::new();
    registry.register_module(&module("k8s.io.v1", &[]));
    registry.register_module(&module("k8s.io.v1alpha3", &[]));

    registry.build_dependency_graph();
    let mut data = registry.to_debug_data();
    // The graph built from the names alone has no edge between these two.
    assert_eq!(data.dependency_edges.len(), 0);

    // Add a dependency to the graph the registry exported.
    let mut graph = ModuleDependencyGraph::new();
    for m in &data.modules {
        graph.add_module(m.clone());
    }
    graph.add_dependency("k8s.io.v1", "k8s.io.v1alpha3", DependencyType::Import);
    data.dependency_edges = graph.edge_list();

    assert_eq!(data.modules.len(), 2);
    assert!(data.modules.iter().any(|m| m.name == "k8s.io.v1"));
    assert!(data.modules.iter().any(|m| m.name == "k8s.io.v1alpha3"));
    assert_eq!(data.dependency_edges.len(), 1);

    let edges_before = data.dependency_edges.len();
    let modules_before = data.modules.len();
    let imported = ModuleRegistry::from_debug_data(data);
    assert_eq!(imported.modules().len(), 2);
    assert!(imported.get("k8s.io.v1").is_some());
    assert!(imported.get("k8s.io.v1alpha3").is_some());

    let reimported = imported.to_debug_data();
    assert_eq!(reimported.modules.len(), modules_before);
    assert_eq!(reimported.dependency_edges.len(), edges_before);
    assert_eq!(reimported.dependency_edges[0].from, "k8s.io.v1");
    assert_eq!(reimported.dependency_edges[0].to, "k8s.io.v1alpha3");
    assert_eq!(reimported.dependency_edges[0].dep_type, DependencyType::Import);
    assert_eq!(imported.get_dependents("k8s.io.v1alpha3"), vec!["k8s.io.v1".to_string()]);
    assert_eq!(imported.get_dependencies("k8s.io.v1"), vec!["k8s.io.v1alpha3".to_string()]);
}

#[test]
fn test_dependency_graph_operations() {
    let mut graph = ModuleDependencyGraph::new();
    graph.add_module(info("module1", "v1"));
    graph.add_module(info("module2", "v2"));
    graph.add_dependency("module1", "module2", DependencyType::TypeReference);

    let sorted = graph.topological_sort().expect("Should sort");
    assert_eq!(sorted.len(), 2);
    assert!(sorted.contains(&"module1".to_string()));
    assert!(sorted.contains(&"module2".to_string()));
    // Each module comes before the modules its edges lead to.
    assert_eq!(sorted, vec!["module1".to_string(), "module2".to_string()]);
}

#[test]
fn module_registry_test_cycle_detection() {
    let mut graph = ModuleDependencyGraph::new();
    graph.add_module(info("module1", "v1"));
    graph.add_module(info("module2", "v2"));
    graph.add_dependency("module1", "module2", DependencyType::Import);
    graph.add_dependency("module2", "module1", DependencyType::Import);

    let cycles = graph.detect_cycles();
    assert_eq!(cycles.len(), 1);
    assert_eq!(cycles[0].len(), 2);
    assert!(cycles[0].contains(&"module1".to_string()));
    assert!(cycles[0].contains(&"module2".to_string()));

    assert!(graph.topological_sort().is_err());
}

#[test]
fn self_dependency_blocks_sorting_but_is_no_reported_cycle() {
    let mut graph = ModuleDependencyGraph::new();
    graph.add_module(info("module1", "v1"));
    graph.add_dependency("module1", "module1", DependencyType::Import);
    assert!(graph.detect_cycles().is_empty());
    match graph.topological_sort() {
        Err(CoreError::CircularDependency(msg)) => assert_eq!(msg, "Circular dependency detected in modules"),
        _ => panic!("expected a circular dependency"),
    }
}

#[test]
fn dependency_on_unknown_module_is_ignored() {
    let mut graph = ModuleDependencyGraph::new();
    graph.add_module(info("module1", "v1"));
    graph.add_dependency("module1", "missing", DependencyType::Import);
    assert!(graph.edge_list().is_empty());
    assert_eq!(graph.dependencies_of("module1"), Vec::<String>::new());
    assert_eq!(graph.dependencies_of("missing"), Vec::<String>::new());
}

#[test]
fn registry_graph_follows_name_patterns() {
    let ir = IR {
        modules: vec![
            module("io.k8s.apimachinery.pkg.apis.meta.v1", &["ObjectMeta"]),
            module("k8s.io.apps.v1", &["Deployment"]),
            module("k8s.io.core.v1", &["Pod"]),
        ],
    };
    let mut registry = ModuleRegistry::from_ir(&ir);
    let mut deps = registry.get_dependencies("k8s.io.apps.v1");
    deps.sort();
    assert_eq!(deps, vec!["io.k8s.apimachinery.pkg.apis.meta.v1".to_string(), "k8s.io.core.v1".to_string()]);
    assert_eq!(registry.get_dependents("k8s.io.apps.v1"), Vec::<String>::new());
    assert!(registry.check_for_cycles().is_empty());
    let order = registry.get_modules_in_order().unwrap();
    assert_eq!(order.len(), 3);
    let pos = |n: &str| order.iter().position(|m| m == n).unwrap();
    assert!(pos("k8s.io.apps.v1") < pos("k8s.io.core.v1"));
    assert!(pos("k8s.io.core.v1") < pos("io.k8s.apimachinery.pkg.apis.meta.v1"));
}

#[test]
fn processing_follows_dependency_order() {
    let ir = IR { modules: vec![module("k8s.io.batch.v1", &[]), module("k8s.io.core.v1", &[])] };
    let registry = ModuleRegistry::from_ir(&ir);
    assert!(registry.process_in_dependency_order(|m: &ModuleInfo| {
        if m.name.is_empty() {
            Err(CoreError::Internal("unnamed".to_string()))
        } else {
            Ok(())
        }
    })
    .is_ok());
    let unbuilt = ModuleRegistry::new();
    assert!(unbuilt.process_in_dependency_order(|_m: &ModuleInfo| Err(CoreError::Internal("x".to_string()))).is_ok());
    assert!(unbuilt.detect_cycles().is_empty());
}

#[test]
fn calculator_over_a_shared_registry() {
    let shared = std::sync::Arc::new(ModuleRegistry::new());
    let calc = ImportPathCalculator::new(shared);
    let standalone = ImportPathCalculator::new_standalone();
    assert_eq!(
        calc.calculate("apps", "v1", "core", "v1", "Pod"),
        standalone.calculate("apps", "v1", "core", "v1", "Pod")
    );
}
