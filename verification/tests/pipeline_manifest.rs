use amalgam::manifest::{
    default_chunk_size, default_error_recovery, default_layout, default_max_parallel_stages, AmalgamManifest,
    DependencyConfig, DiagnosticsConfig, ErrorHandlingConfig, InputConfig, ManifestMetadata, OptimizationConfig,
    OutputConfig, PerformanceConfig, PipelineConfig, ProcessingConfig, StageConfig, ValidationConfig,
};
use amalgam::pipeline::{
    DependencyEdge, DependencyNode, InputSource, ModuleLayout, NickelFormatting, OutputTarget, PackageMetadata,
    PipelineBuilder, PipelineDependencyGraph, PipelineError, Transform,
};

fn input(kind: &str) -> InputConfig {
    InputConfig {
        input_type: kind.to_string(),
        crd_paths: None,
        include_patterns: None,
        go_module: None,
        type_patterns: None,
        spec_path: None,
    }
}

fn output(kind: &str, target: &str) -> OutputConfig {
    OutputConfig {
        output_type: kind.to_string(),
        target_path: target.to_string(),
        include_contracts: false,
        package_name: None,
        include_json_tags: false,
        format: None,
    }
}

fn processing() -> ProcessingConfig {
    ProcessingConfig {
        import_strategy: "hierarchical".to_string(),
        layout: default_layout(),
        symbol_resolution: "eager".to_string(),
        special_cases: Vec::new(),
    }
}

fn stage(name: &str, input: InputConfig, output: OutputConfig) -> StageConfig {
    StageConfig { name: name.to_string(), description: None, input, processing: processing(), output }
}

fn manifest(stages: Vec<StageConfig>, dependencies: Option<Vec<DependencyConfig>>) -> AmalgamManifest {
    AmalgamManifest {
        metadata: ManifestMetadata {
            name: "test-manifest".to_string(),
            version: "0.1.0".to_string(),
            description: None,
        },
        pipeline: PipelineConfig {
            output_dir: "examples/pkgs/test".to_string(),
            export_diagnostics: false,
            error_recovery: default_error_recovery(),
            optimization: OptimizationConfig::default(),
            validation: ValidationConfig::default(),
            diagnostics: DiagnosticsConfig::default(),
            conditions: Vec::new(),
            error_handling: ErrorHandlingConfig::default(),
            performance: PerformanceConfig::default(),
            extensions: Vec::new(),
        },
        stages,
        dependencies,
    }
}

fn openapi_input() -> InputSource {
    InputSource::OpenAPI {
        url: "https://example.com/openapi.json".to_string(),
        version: "v1".to_string(),
        domain: Some("example.com".to_string()),
        auth: None,
    }
}

#[test]
fn test_pipeline_builder() {
    let pipeline = PipelineBuilder::with_input(openapi_input())
        .transform(Transform::NormalizeTypes)
        .transform(Transform::ResolveReferences)
        .layout(ModuleLayout::K8s {
            consolidate_versions: true,
            include_alpha_beta: true,
            root_exports: vec!["v1".to_string()],
            api_group_structure: true,
        })
        .output(OutputTarget::NickelPackage {
            contracts: true,
            validation: true,
            rich_exports: true,
            usage_patterns: true,
            package_metadata: PackageMetadata::default(),
            formatting: NickelFormatting::default(),
        })
        .build();

    assert_eq!(pipeline.transforms.len(), 5);
    assert!(matches!(pipeline.input, InputSource::OpenAPI { .. }));
    assert!(matches!(pipeline.layout, ModuleLayout::K8s { .. }));
    assert!(matches!(pipeline.output, OutputTarget::NickelPackage { .. }));
}

#[test]
fn test_pipeline_validation() {
    let pipeline = PipelineBuilder::with_input(openapi_input()).build();
    assert!(pipeline.validate().is_ok());
}

#[test]
fn pipeline_execute_reports_unreadable_input() {
    let pipeline = PipelineBuilder::with_input(openapi_input()).build();
    match pipeline.execute() {
        Err(PipelineError::InputParsingFailed(d)) => {
            assert_eq!(d.message, "OpenAPI parsing not yet implemented");
            assert_eq!(d.recovery_suggestion.as_deref(), Some("Implement OpenAPI parser integration"));
        },
        other => panic!("unexpected result: {:?}", other.is_ok()),
    }
}

#[test]
fn test_manifest_validation() {
    let mut crd = input("k8s-crd");
    crd.crd_paths = Some(vec!["k8s.io/api/core/v1".to_string()]);
    let stages = vec![stage("stage1", crd, output("nickel", "output.ncl"))];
    let dependencies = vec![DependencyConfig {
        stage: "stage1".to_string(),
        depends_on: vec!["nonexistent-stage".to_string()],
        import_symbols: vec!["all".to_string()],
    }];
    let manifest = manifest(stages, Some(dependencies));
    let warnings = manifest.validate().unwrap();
    assert!(!warnings.is_empty());
    assert!(warnings.iter().any(|w| w.contains("nonexistent-stage")));
}

#[test]
fn manifest_validation_reports_each_problem_in_order() {
    let stages = vec![
        stage("a", input("go-types"), output("go", "a.go")),
        stage("b", input("yaml"), output("nickel", "b.ncl")),
    ];
    let dependencies = vec![DependencyConfig {
        stage: "c".to_string(),
        depends_on: vec!["a".to_string(), "d".to_string()],
        import_symbols: Vec::new(),
    }];
    let warnings = manifest(stages, Some(dependencies)).validate().unwrap();
    assert_eq!(
        warnings,
        vec![
            "Dependency references unknown stage: c".to_string(),
            "Stage c depends on unknown stage: d".to_string(),
            "Stage a uses go-types input but has no go_module".to_string(),
            "Stage b uses unknown input type: yaml".to_string(),
        ]
    );
}

#[test]
fn manifest_without_problems_has_no_warnings() {
    let mut api = input("openapi");
    api.spec_path = Some("spec.json".to_string());
    let warnings = manifest(vec![stage("api", api, output("nickel", "api.ncl"))], None).validate().unwrap();
    assert!(warnings.is_empty());
}

#[test]
fn build_input_source_per_kind() {
    let m = manifest(Vec::new(), None);

    let mut crd = input("k8s-crd");
    crd.crd_paths = Some(vec!["a.yaml".to_string()]);
    match m.build_input_source(&crd) {
        Ok(InputSource::CRDs { urls, domain, versions, auth }) => {
            assert_eq!(urls, vec!["a.yaml".to_string()]);
            assert_eq!(domain, "k8s.io");
            assert_eq!(versions, vec!["v1".to_string()]);
            assert!(auth.is_none());
        },
        _ => panic!("expected CRDs"),
    }

    let mut go = input("go-types");
    go.go_module = Some("example.com/m".to_string());
    match m.build_input_source(&go) {
        Ok(InputSource::GoTypes { package, types, version, go_module }) => {
            assert_eq!(package, "example.com/m");
            assert!(types.is_empty());
            assert!(version.is_none() && go_module.is_none());
        },
        _ => panic!("expected Go types"),
    }

    let mut api = input("openapi");
    api.spec_path = Some("spec.json".to_string());
    match m.build_input_source(&api) {
        Ok(InputSource::OpenAPI { url, version, .. }) => {
            assert_eq!(url, "file://spec.json");
            assert_eq!(version, "v1");
        },
        _ => panic!("expected OpenAPI"),
    }

    match m.build_input_source(&input("k8s-crd")) {
        Err(PipelineError::ConfigError(msg)) => assert_eq!(msg, "k8s-crd input requires crd_paths"),
        _ => panic!("expected a configuration error"),
    }
    match m.build_input_source(&input("proto")) {
        Err(PipelineError::ConfigError(msg)) => assert_eq!(msg, "Unknown input type: proto"),
        _ => panic!("expected a configuration error"),
    }
}

#[test]
fn build_output_target_per_kind() {
    let m = manifest(Vec::new(), None);
    let mut nickel = output("nickel", "x.ncl");
    nickel.include_contracts = true;
    match m.build_output_target(&nickel) {
        Ok(OutputTarget::NickelPackage { contracts, usage_patterns, package_metadata, .. }) => {
            assert!(contracts && usage_patterns);
            assert_eq!(package_metadata.name, "generated-package");
        },
        _ => panic!("expected a Nickel package"),
    }
    match m.build_output_target(&output("go", "x.go")) {
        Ok(OutputTarget::Go { package_name, generate_json_tags, .. }) => {
            assert_eq!(package_name, "generated");
            assert!(!generate_json_tags);
        },
        _ => panic!("expected Go"),
    }
    match m.build_output_target(&output("cue", "x.cue")) {
        Err(PipelineError::ConfigError(msg)) => assert_eq!(msg, "Unknown output type: cue"),
        _ => panic!("expected a configuration error"),
    }
}

#[test]
fn build_pipelines_stops_at_first_bad_stage() {
    let mut api = input("openapi");
    api.spec_path = Some("spec.json".to_string());
    let good = stage("good", api, output("nickel", "a.ncl"));
    let mut crd = input("k8s-crd");
    crd.crd_paths = Some(vec!["a.yaml".to_string()]);
    let bad = stage("bad", crd, output("ts", "b.ts"));
    let worse = stage("worse", input("yaml"), output("nickel", "c.ncl"));
    match manifest(vec![good, bad, worse], None).build_pipelines() {
        Err(PipelineError::ConfigError(msg)) => assert_eq!(msg, "Unknown output type: ts"),
        _ => panic!("expected a configuration error"),
    }

    let mut api = input("openapi");
    api.spec_path = Some("spec.json".to_string());
    let pipelines = manifest(vec![stage("good", api, output("nickel", "a.ncl"))], None).build_pipelines().unwrap();
    assert_eq!(pipelines.len(), 1);
    assert_eq!(pipelines[0].transforms.len(), 3);
}

#[test]
fn manifest_defaults() {
    assert_eq!(default_error_recovery(), "fail-fast");
    assert_eq!(default_layout(), "single-file");
    assert_eq!(default_max_parallel_stages(), 2);
    assert_eq!(default_chunk_size(), 100);
}

fn dep_node(id: &str, path: &str, kind: &str) -> DependencyNode {
    DependencyNode { id: id.to_string(), module_file: path.to_string(), node_type: kind.to_string(), metadata: Vec::new() }
}

fn depends_on() -> DependencyEdge {
    DependencyEdge { edge_type: "depends_on".to_string(), weight: Some("1.0".to_string()), metadata: Vec::new() }
}

#[test]
fn test_dependency_graph_creation() {
    let mut graph = PipelineDependencyGraph::new();
    graph.add_node(dep_node("input-node", "input/mod.ncl", "input"));
    graph.add_node(dep_node("transform-node", "transform/mod.ncl", "transform"));
    graph.add_edge("transform-node", "input-node", depends_on()).unwrap();

    let order = graph.topological_order().unwrap();
    assert_eq!(order.len(), 2);
    assert!(order.contains(&"input-node".to_string()));
    assert!(order.contains(&"transform-node".to_string()));
}

#[test]
fn test_dependency_graph_cycle_detection() {
    let mut graph = PipelineDependencyGraph::new();
    graph.add_node(dep_node("node1", "node1/mod.ncl", "transform"));
    graph.add_node(dep_node("node2", "node2/mod.ncl", "transform"));
    graph.add_edge("node1", "node2", depends_on()).unwrap();
    graph.add_edge("node2", "node1", depends_on()).unwrap();

    assert!(graph.has_cycles());
    assert!(graph.topological_order().is_err());
}

#[test]
fn pipeline_graph_edges_need_known_nodes() {
    let mut graph = PipelineDependencyGraph::default();
    graph.add_node(dep_node("a", "a.ncl", "input"));
    assert_eq!(graph.add_edge("x", "a", depends_on()), Err("Node not found: x".to_string()));
    assert_eq!(graph.add_edge("a", "y", depends_on()), Err("Node not found: y".to_string()));
    assert!(!graph.has_cycles());
    assert_eq!(graph.topological_order(), Ok(vec!["a".to_string()]));
    assert!(graph.to_serializable().edges.is_empty());
}

#[test]
fn pipeline_graph_export_and_components() {
    let mut graph = PipelineDependencyGraph::new();
    graph.add_node(dep_node("a", "a.ncl", "input"));
    graph.add_node(dep_node("b", "b.ncl", "transform"));
    graph.add_node(dep_node("c", "c.ncl", "output"));
    graph.add_edge("b", "a", depends_on()).unwrap();
    graph.add_edge("c", "b", depends_on()).unwrap();
    graph.add_edge("a", "c", depends_on()).unwrap();
    assert_eq!(graph.topological_order(), Err("Graph contains cycles".to_string()));
    let comps = graph.strongly_connected_components();
    assert_eq!(comps.len(), 1);
    let mut ids = comps[0].clone();
    ids.sort();
    assert_eq!(ids, vec!["a".to_string(), "b".to_string(), "c".to_string()]);

    let exported = graph.to_serializable();
    assert_eq!(exported.nodes.len(), 3);
    assert_eq!(exported.nodes[1].module_file, "b.ncl");
    assert_eq!(exported.edges.len(), 3);
    assert_eq!(exported.edges[0].from, "b");
    assert_eq!(exported.edges[0].to, "a");
    assert_eq!(exported.edges[2].edge_data.weight.as_deref(), Some("1.0"));
}
