use amalgam::ir::{Metadata, Module, TypeDefinition, IR};
use amalgam::parsing_trace::{ParsingTrace, TraceBuilder};
use amalgam::types::Type;

fn module_of(name: &str, types: &[&str]) -> Module {
    Module {
        name: name.to_string(),
        imports: Vec::new(),
        types: types
            .iter()
            .map(|t| TypeDefinition { name: t.to_string(), ty: Type::String, documentation: None, annotations: Vec::new() })
            .collect(),
        constants: Vec::new(),
        metadata: Metadata::default(),
    }
}

#[test]
fn input_and_result_are_recorded_from_the_representation() {
    let ir = IR { modules: vec![module_of("apps.v1", &["Deployment", "StatefulSet"]), module_of("core.v1", &["Pod"])] };
    let raw = "# Module: apps.v1\nx\n# Module: core.v1\n";
    let mut trace = ParsingTrace::new();
    trace.record_input(raw, &ir);
    assert_eq!(trace.input.total_length, raw.len());
    assert_eq!(trace.input.ir_module_count, 2);
    assert_eq!(trace.input.ir_modules[0].name, "apps.v1");
    assert_eq!(trace.input.ir_modules[0].type_count, 2);
    assert_eq!(trace.input.ir_modules[0].type_names, vec!["Deployment".to_string(), "StatefulSet".to_string()]);
    assert_eq!(trace.input.module_markers_found, vec!["# Module: apps.v1".to_string(), "# Module: core.v1".to_string()]);

    let files = vec![
        ("deployment.ncl".to_string(), "{}".to_string()),
        ("pod.ncl".to_string(), "{}".to_string()),
    ];
    trace.record_result(&files, false);
    assert_eq!(trace.result.files_extracted, 2);
    assert_eq!(trace.result.file_names, vec!["deployment.ncl".to_string(), "pod.ncl".to_string()]);
    assert_eq!(trace.result.failed_extractions, vec!["apps.v1.StatefulSet".to_string()]);

    let built = TraceBuilder::new().with_input(raw, &ir).build();
    assert_eq!(built.input.ir_modules[1].type_names, vec!["Pod".to_string()]);
}
