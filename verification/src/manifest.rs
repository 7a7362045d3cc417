//! Pipeline manifests: their structure, the defaults their reader fills in,
//! their validation, and the pipelines their stages describe.

use vstd::prelude::*;
use vstd::string::StringExecFns;
use crate::json::JsonValue;
use crate::pipeline::{
    default_transforms, InputSource, NickelFormatting, OutputTarget, PackageMetadata,
    PipelineBuilder, PipelineError, UnifiedPipeline,
};
use crate::text::{concat, contains_str, str_eq, to_owned_string, views};

verus! {

broadcast use vstd::string::group_string_axioms;

/// The manifest's own metadata.
#[derive(Debug, Clone)]
pub struct ManifestMetadata {
    pub name: String,
    pub version: String,
    pub description: Option<String>,
}

/// Optimisation switches.
#[derive(Debug, Clone)]
pub struct OptimizationConfig {
    pub enabled: bool,
    pub deduplicate_modules: bool,
    pub consolidate_imports: bool,
    pub eliminate_unused: bool,
}

impl Default for OptimizationConfig {
    fn default() -> (r: Self)
        ensures
            !r.enabled && !r.deduplicate_modules && !r.consolidate_imports && !r.eliminate_unused,
    {
        OptimizationConfig {
            enabled: false,
            deduplicate_modules: false,
            consolidate_imports: false,
            eliminate_unused: false,
        }
    }
}

/// Validation switches.
#[derive(Debug, Clone)]
pub struct ValidationConfig {
    pub validate_syntax: bool,
    pub validate_types: bool,
    pub validate_contracts: bool,
    pub validate_imports: bool,
}

impl Default for ValidationConfig {
    fn default() -> (r: Self)
        ensures
            !r.validate_syntax && !r.validate_types && !r.validate_contracts && !r.validate_imports,
    {
        ValidationConfig {
            validate_syntax: false,
            validate_types: false,
            validate_contracts: false,
            validate_imports: false,
        }
    }
}

/// Which diagnostics to export, and where.
#[derive(Debug, Clone)]
pub struct DiagnosticsConfig {
    pub export_dag: bool,
    pub export_symbol_table: bool,
    pub export_timing: bool,
    pub export_memory_usage: bool,
    pub diagnostics_path: Option<String>,
}

impl Default for DiagnosticsConfig {
    fn default() -> (r: Self)
        ensures
            !r.export_dag && !r.export_symbol_table && !r.export_timing && !r.export_memory_usage,
            r.diagnostics_path is None,
    {
        DiagnosticsConfig {
            export_dag: false,
            export_symbol_table: false,
            export_timing: false,
            export_memory_usage: false,
            diagnostics_path: None,
        }
    }
}

/// A named condition.
#[derive(Debug, Clone)]
pub struct ConditionConfig {
    pub condition: String,
    pub default: Option<bool>,
    pub fallback: Option<String>,
}

/// A rule suggesting a fix for matching errors.
#[derive(Debug, Clone)]
pub struct RecoveryRule {
    pub error_pattern: String,
    pub suggestion: String,
    pub auto_fix: Option<String>,
}

/// How stage failures are handled.
#[derive(Debug, Clone)]
pub struct ErrorHandlingConfig {
    pub on_stage_failure: String,
    pub max_retries: u32,
    pub retry_strategy: String,
    pub recovery_rules: Vec<RecoveryRule>,
}

impl Default for ErrorHandlingConfig {
    /// Empty strings, no retries, no rules.
    fn default() -> (r: Self)
        ensures
            r.on_stage_failure@.len() == 0,
            r.max_retries == 0,
            r.retry_strategy@.len() == 0,
            r.recovery_rules@.len() == 0,
    {
        ErrorHandlingConfig {
            on_stage_failure: String::new(),
            max_retries: 0,
            retry_strategy: String::new(),
            recovery_rules: Vec::new(),
        }
    }
}

/// Performance settings.
#[derive(Debug, Clone)]
pub struct PerformanceConfig {
    pub parallel_stages: bool,
    pub max_parallel_stages: u32,
    pub use_streaming: bool,
    pub chunk_size: u32,
    pub cache_intermediate_results: bool,
    pub cache_ttl: Option<String>,
}

impl Default for PerformanceConfig {
    /// Everything off or zero.
    fn default() -> (r: Self)
        ensures
            !r.parallel_stages,
            r.max_parallel_stages == 0,
            !r.use_streaming,
            r.chunk_size == 0,
            !r.cache_intermediate_results,
            r.cache_ttl is None,
    {
        PerformanceConfig {
            parallel_stages: false,
            max_parallel_stages: 0,
            use_streaming: false,
            chunk_size: 0,
            cache_intermediate_results: false,
            cache_ttl: None,
        }
    }
}

/// A stage's input.
#[derive(Debug, Clone)]
pub struct InputConfig {
    pub input_type: String,
    pub crd_paths: Option<Vec<String>>,
    pub include_patterns: Option<Vec<String>>,
    pub go_module: Option<String>,
    pub type_patterns: Option<Vec<String>>,
    pub spec_path: Option<String>,
}

/// Output formatting.
#[derive(Debug, Clone)]
pub struct FormatConfig {
    pub indent: Option<u32>,
    pub max_line_length: Option<u32>,
    pub trailing_commas: bool,
    pub use_inline_contracts: bool,
    pub separate_contract_files: bool,
}

/// A stage's output.
#[derive(Debug, Clone)]
pub struct OutputConfig {
    pub output_type: String,
    pub target_path: String,
    pub include_contracts: bool,
    pub package_name: Option<String>,
    pub include_json_tags: bool,
    pub format: Option<FormatConfig>,
}

/// A stage's dependencies on other stages.
#[derive(Debug, Clone)]
pub struct DependencyConfig {
    pub stage: String,
    pub depends_on: Vec<String>,
    pub import_symbols: Vec<String>,
}

/// The error recovery mode when none is given.
pub fn default_error_recovery() -> (r: String)
    ensures
        r@ == "fail-fast"@,
{
    to_owned_string("fail-fast")
}

/// The stage failure handling when none is given.
pub fn default_on_stage_failure() -> (r: String)
    ensures
        r@ == "fail"@,
{
    to_owned_string("fail")
}

/// The retry count when none is given.
pub fn default_max_retries() -> (r: u32)
    ensures
        r == 0,
{
    0
}

/// The retry strategy when none is given.
pub fn default_retry_strategy() -> (r: String)
    ensures
        r@ == "linear"@,
{
    to_owned_string("linear")
}

/// The number of stages run in parallel when none is given.
pub fn default_max_parallel_stages() -> (r: u32)
    ensures
        r == 2,
{
    2
}

/// The streaming chunk size when none is given.
pub fn default_chunk_size() -> (r: u32)
    ensures
        r == 100,
{
    100
}

/// The import strategy when none is given.
pub fn default_import_strategy() -> (r: String)
    ensures
        r@ == "hierarchical"@,
{
    to_owned_string("hierarchical")
}

/// The layout when none is given.
pub fn default_layout() -> (r: String)
    ensures
        r@ == "single-file"@,
{
    to_owned_string("single-file")
}

/// The symbol resolution mode when none is given.
pub fn default_symbol_resolution() -> (r: String)
    ensures
        r@ == "eager"@,
{
    to_owned_string("eager")
}

/// An extension of the pipeline.
#[derive(Debug)]
pub struct ExtensionConfig {
    pub name: String,
    pub extension_type: String,
    pub plugin_path: Option<String>,
    /// Settings, in key order.
    pub config: Vec<(String, JsonValue)>,
}

/// A special-case rule of a stage.
#[derive(Debug)]
pub struct SpecialCaseConfig {
    pub pattern: String,
    pub action: String,
    /// Settings, in key order.
    pub config: Vec<(String, JsonValue)>,
}

/// How a stage processes its input.
#[derive(Debug)]
pub struct ProcessingConfig {
    pub import_strategy: String,
    pub layout: String,
    pub symbol_resolution: String,
    pub special_cases: Vec<SpecialCaseConfig>,
}

/// A stage of the manifest.
#[derive(Debug)]
pub struct StageConfig {
    pub name: String,
    pub description: Option<String>,
    pub input: InputConfig,
    pub processing: ProcessingConfig,
    pub output: OutputConfig,
}

/// The pipeline settings of a manifest.
#[derive(Debug)]
pub struct PipelineConfig {
    pub output_dir: String,
    pub export_diagnostics: bool,
    pub error_recovery: String,
    pub optimization: OptimizationConfig,
    pub validation: ValidationConfig,
    pub diagnostics: DiagnosticsConfig,
    /// Named conditions, in key order.
    pub conditions: Vec<(String, ConditionConfig)>,
    pub error_handling: ErrorHandlingConfig,
    pub performance: PerformanceConfig,
    pub extensions: Vec<ExtensionConfig>,
}

/// A pipeline manifest.
#[derive(Debug)]
pub struct AmalgamManifest {
    pub metadata: ManifestMetadata,
    pub pipeline: PipelineConfig,
    pub stages: Vec<StageConfig>,
    pub dependencies: Option<Vec<DependencyConfig>>,
}

/// The names of the stages.
pub open spec fn stage_names(stages: Seq<StageConfig>) -> Seq<Seq<char>> {
    stages.map_values(|s: StageConfig| s.name@)
}

/// The warnings about one dependency entry: its stage unknown, then each
/// unknown stage it depends on.
pub open spec fn dependency_warnings(names: Seq<Seq<char>>, dep: DependencyConfig) -> Seq<Seq<char>> {
    (if names.contains(dep.stage@) {
        Seq::empty()
    } else {
        seq!["Dependency references unknown stage: "@ + dep.stage@]
    }) + unknown_targets(names, dep.stage@, views(dep.depends_on@))
}

/// The warnings about the unknown stages among `targets`, in order.
pub open spec fn unknown_targets(names: Seq<Seq<char>>, stage: Seq<char>, targets: Seq<Seq<char>>) -> Seq<Seq<char>>
    decreases targets.len(),
{
    if targets.len() == 0 {
        Seq::empty()
    } else {
        unknown_targets(names, stage, targets.drop_last()) + if names.contains(targets.last()) {
            Seq::empty()
        } else {
            seq!["Stage "@ + stage + " depends on unknown stage: "@ + targets.last()]
        }
    }
}

/// The warnings about the dependency entries, in order.
pub open spec fn dependencies_warnings(names: Seq<Seq<char>>, deps: Seq<DependencyConfig>) -> Seq<Seq<char>>
    decreases deps.len(),
{
    if deps.len() == 0 {
        Seq::empty()
    } else {
        dependencies_warnings(names, deps.drop_last()) + dependency_warnings(names, deps.last())
    }
}

/// The warning about a stage's input, if any: a known input kind without
/// the setting it needs, or an unknown kind.
pub open spec fn stage_warning(stage: StageConfig) -> Seq<Seq<char>> {
    let t = stage.input.input_type@;
    let n = stage.name@;
    if t == "k8s-crd"@ {
        if stage.input.crd_paths is None {
            seq!["Stage "@ + n + " uses k8s-crd input but has no crd_paths"@]
        } else {
            Seq::empty()
        }
    } else if t == "go-types"@ {
        if stage.input.go_module is None {
            seq!["Stage "@ + n + " uses go-types input but has no go_module"@]
        } else {
            Seq::empty()
        }
    } else if t == "openapi"@ {
        if stage.input.spec_path is None {
            seq!["Stage "@ + n + " uses openapi input but has no spec_path"@]
        } else {
            Seq::empty()
        }
    } else {
        seq!["Stage "@ + n + " uses unknown input type: "@ + t]
    }
}

/// The warnings about the stages' inputs, in order.
pub open spec fn stages_warnings(stages: Seq<StageConfig>) -> Seq<Seq<char>>
    decreases stages.len(),
{
    if stages.len() == 0 {
        Seq::empty()
    } else {
        stages_warnings(stages.drop_last()) + stage_warning(stages.last())
    }
}

/// The warnings a manifest gets: those about its dependencies, then those
/// about its stages' inputs.
pub open spec fn manifest_warnings(m: AmalgamManifest) -> Seq<Seq<char>> {
    let names = stage_names(m.stages@);
    (match m.dependencies {
        Some(deps) => dependencies_warnings(names, deps@),
        None => Seq::empty(),
    }) + stages_warnings(m.stages@)
}

/// The setting an input kind needs, and the error for its absence; the
/// error for an unknown kind.
pub open spec fn input_error(input: InputConfig) -> Option<Seq<char>> {
    let t = input.input_type@;
    if t == "k8s-crd"@ {
        if input.crd_paths is None {
            Some("k8s-crd input requires crd_paths"@)
        } else {
            None
        }
    } else if t == "go-types"@ {
        if input.go_module is None {
            Some("go-types input requires go_module"@)
        } else {
            None
        }
    } else if t == "openapi"@ {
        if input.spec_path is None {
            Some("openapi input requires spec_path"@)
        } else {
            None
        }
    } else {
        Some("Unknown input type: "@ + t)
    }
}

/// The source an input describes, when it has what it needs: CRDs of
/// `k8s.io` in `v1`, Go types with the type patterns (none when absent), or
/// an OpenAPI document read from the `file://` URL of its path.
pub open spec fn input_source_ok(input: InputConfig, src: InputSource) -> bool {
    let t = input.input_type@;
    if t == "k8s-crd"@ {
        src matches InputSource::CRDs { urls, domain, versions, auth } && views(urls@) == views(input.crd_paths->0@)
            && domain@ == "k8s.io"@ && views(versions@) == seq!["v1"@] && auth is None
    } else if t == "go-types"@ {
        src matches InputSource::GoTypes { package, types, version, go_module } && package@ == input.go_module->0@
            && views(types@) == match input.type_patterns {
            Some(p) => views(p@),
            None => Seq::empty(),
        } && version is None && go_module is None
    } else {
        src matches InputSource::OpenAPI { url, version, domain, auth } && url@ == "file://"@ + input.spec_path->0@
            && version@ == "v1"@ && domain is None && auth is None
    }
}

/// The error for an unknown output kind.
pub open spec fn output_error(output: OutputConfig) -> Option<Seq<char>> {
    let t = output.output_type@;
    if t == "nickel"@ || t == "go"@ {
        None
    } else {
        Some("Unknown output type: "@ + t)
    }
}

/// The target an output describes: a Nickel package (contracts as asked;
/// validation, rich exports and usage patterns on; default metadata and
/// formatting), or Go types in the named package (`generated` when
/// unnamed) with JSON tags as asked.
pub open spec fn output_target_ok(output: OutputConfig, target: OutputTarget) -> bool {
    if output.output_type@ == "nickel"@ {
        target matches OutputTarget::NickelPackage {
            contracts,
            validation,
            rich_exports,
            usage_patterns,
            package_metadata,
            formatting,
        } && contracts == output.include_contracts && validation && rich_exports && usage_patterns
            && package_metadata.name@ == "generated-package"@ && formatting.indent == 2
    } else {
        target matches OutputTarget::Go { package_name, imports, tags, generate_json_tags } && package_name@
            == match output.package_name {
            Some(n) => n@,
            None => "generated"@,
        } && imports@.len() == 0 && tags@.len() == 0 && generate_json_tags == output.include_json_tags
    }
}

/// The configuration error of a stage, if any: that of its input, else
/// that of its output.
pub open spec fn stage_error(stage: StageConfig) -> Option<Seq<char>> {
    match input_error(stage.input) {
        Some(m) => Some(m),
        None => output_error(stage.output),
    }
}

/// `e` is a configuration error with message `msg`.
pub open spec fn config_error(e: PipelineError, msg: Seq<char>) -> bool {
    e matches PipelineError::ConfigError(m) && m@ == msg
}

fn clone_strings_opt(o: &Option<Vec<String>>) -> (r: Vec<String>)
    ensures
        views(r@) == match o {
            Some(v) => views(v@),
            None => Seq::empty(),
        },
{
    match o {
        Some(v) => crate::text::clone_strings(v),
        None => {
            let r: Vec<String> = Vec::new();
            assert(views(r@) =~= Seq::<Seq<char>>::empty());
            r
        },
    }
}

fn stage_name_list(stages: &Vec<StageConfig>) -> (r: Vec<String>)
    ensures
        views(r@) == stage_names(stages@),
{
    let mut out: Vec<String> = Vec::new();
    let mut i: usize = 0;
    while i < stages.len()
        invariant
            i <= stages.len(),
            views(out@) == stage_names(stages@.take(i as int)),
        decreases stages.len() - i,
    {
        let ghost o0 = out@;
        out.push(stages[i].name.clone());
        assert(views(out@) =~= views(o0).push(stages@[i as int].name@));
        assert(stage_names(stages@.take(i + 1)) =~= stage_names(stages@.take(i as int)).push(stages@[i as int].name@));
        i = i + 1;
    }
    assert(stages@.take(stages.len() as int) =~= stages@);
    out
}

impl AmalgamManifest {
    /// The warnings about the manifest: dependencies on unknown stages, and
    /// stage inputs of an unknown kind or without the setting their kind
    /// needs.
    pub fn validate(&self) -> (r: Result<Vec<String>, PipelineError>)
        ensures
            r matches Ok(w) && views(w@) == manifest_warnings(*self),
    {
        let mut warnings: Vec<String> = Vec::new();
        let names = stage_name_list(&self.stages);
        let ghost nv = views(names@);
        if let Some(dependencies) = &self.dependencies {
            let mut d: usize = 0;
            assert(dependencies@.take(0) =~= Seq::<DependencyConfig>::empty());
            while d < dependencies.len()
                invariant
                    nv == views(names@),
                    nv == stage_names(self.stages@),
                    d <= dependencies.len(),
                    views(warnings@) == dependencies_warnings(nv, dependencies@.take(d as int)),
                decreases dependencies.len() - d,
            {
                let dep = &dependencies[d];
                let ghost w0 = views(warnings@);
                if !contains_str(&names, dep.stage.as_str()) {
                    let mut w = to_owned_string("Dependency references unknown stage: ");
                    w.append(dep.stage.as_str());
                    warnings.push(w);
                }
                let ghost w1 = views(warnings@);
                proof {
                    assert(w1 == w0 + (if nv.contains(dep.stage@) {
                        Seq::empty()
                    } else {
                        seq!["Dependency references unknown stage: "@ + dep.stage@]
                    }));
                    assert(views(dep.depends_on@).take(0) =~= Seq::<Seq<char>>::empty());
                }
                let mut k: usize = 0;
                while k < dep.depends_on.len()
                    invariant
                        nv == views(names@),
                        k <= dep.depends_on.len(),
                        views(warnings@) == w1 + unknown_targets(nv, dep.stage@, views(dep.depends_on@).take(k as int)),
                    decreases dep.depends_on.len() - k,
                {
                    let target = &dep.depends_on[k];
                    let ghost w2 = views(warnings@);
                    proof {
                        assert(views(dep.depends_on@).take(k + 1).drop_last() =~= views(dep.depends_on@).take(k as int));
                        assert(views(dep.depends_on@).take(k + 1).last() == target@);
                    }
                    if !contains_str(&names, target.as_str()) {
                        let mut w = to_owned_string("Stage ");
                        w.append(dep.stage.as_str());
                        w.append(" depends on unknown stage: ");
                        w.append(target.as_str());
                        warnings.push(w);
                        assert(views(warnings@) =~= w2.push(w@));
                    }
                    k = k + 1;
                }
                proof {
                    assert(views(dep.depends_on@).take(dep.depends_on.len() as int) =~= views(dep.depends_on@));
                    assert(dependencies@.take(d + 1).drop_last() =~= dependencies@.take(d as int));
                }
                d = d + 1;
            }
            assert(dependencies@.take(dependencies.len() as int) =~= dependencies@);
        }
        let ghost wd = views(warnings@);
        let mut i: usize = 0;
        assert(self.stages@.take(0) =~= Seq::<StageConfig>::empty());
        while i < self.stages.len()
            invariant
                i <= self.stages.len(),
                views(warnings@) == wd + stages_warnings(self.stages@.take(i as int)),
            decreases self.stages.len() - i,
        {
            let stage = &self.stages[i];
            let t = stage.input.input_type.as_str();
            let ghost w0 = views(warnings@);
            let w = if str_eq(t, "k8s-crd") {
                if stage.input.crd_paths.is_none() {
                    let mut w = concat("Stage ", stage.name.as_str());
                    w.append(" uses k8s-crd input but has no crd_paths");
                    Some(w)
                } else {
                    None
                }
            } else if str_eq(t, "go-types") {
                if stage.input.go_module.is_none() {
                    let mut w = concat("Stage ", stage.name.as_str());
                    w.append(" uses go-types input but has no go_module");
                    Some(w)
                } else {
                    None
                }
            } else if str_eq(t, "openapi") {
                if stage.input.spec_path.is_none() {
                    let mut w = concat("Stage ", stage.name.as_str());
                    w.append(" uses openapi input but has no spec_path");
                    Some(w)
                } else {
                    None
                }
            } else {
                let mut w = concat("Stage ", stage.name.as_str());
                w.append(" uses unknown input type: ");
                w.append(t);
                Some(w)
            };
            match w {
                Some(w) => {
                    warnings.push(w);
                    assert(views(warnings@) =~= w0.push(w@));
                },
                None => {},
            }
            proof {
                assert(self.stages@.take(i + 1).drop_last() =~= self.stages@.take(i as int));
            }
            i = i + 1;
        }
        assert(self.stages@.take(self.stages.len() as int) =~= self.stages@);
        Ok(warnings)
    }

    /// The source a stage input describes, or the error for an unknown kind
    /// or a missing setting.
    pub fn build_input_source(&self, input: &InputConfig) -> (r: Result<InputSource, PipelineError>)
        ensures
            match input_error(*input) {
                Some(msg) => r matches Err(e) && config_error(e, msg),
                None => r matches Ok(src) && input_source_ok(*input, src),
            },
    {
        let t = input.input_type.as_str();
        if str_eq(t, "k8s-crd") {
            return match &input.crd_paths {
                None => Err(PipelineError::ConfigError(to_owned_string("k8s-crd input requires crd_paths"))),
                Some(paths) => {
                    let mut versions: Vec<String> = Vec::new();
                    versions.push(to_owned_string("v1"));
                    assert(views(versions@) =~= seq!["v1"@]);
                    Ok(InputSource::CRDs {
                        urls: crate::text::clone_strings(paths),
                        domain: to_owned_string("k8s.io"),
                        versions,
                        auth: None,
                    })
                },
            };
        }
        if str_eq(t, "go-types") {
            return match &input.go_module {
                None => Err(PipelineError::ConfigError(to_owned_string("go-types input requires go_module"))),
                Some(m) => Ok(InputSource::GoTypes {
                    package: m.clone(),
                    types: clone_strings_opt(&input.type_patterns),
                    version: None,
                    go_module: None,
                }),
            };
        }
        if str_eq(t, "openapi") {
            return match &input.spec_path {
                None => Err(PipelineError::ConfigError(to_owned_string("openapi input requires spec_path"))),
                Some(p) => Ok(InputSource::OpenAPI {
                    url: concat("file://", p.as_str()),
                    version: to_owned_string("v1"),
                    domain: None,
                    auth: None,
                }),
            };
        }
        Err(PipelineError::ConfigError(concat("Unknown input type: ", t)))
    }

    /// The target a stage output describes, or the error for an unknown
    /// kind.
    pub fn build_output_target(&self, output: &OutputConfig) -> (r: Result<OutputTarget, PipelineError>)
        ensures
            match output_error(*output) {
                Some(msg) => r matches Err(e) && config_error(e, msg),
                None => r matches Ok(t) && output_target_ok(*output, t),
            },
    {
        let t = output.output_type.as_str();
        if str_eq(t, "nickel") {
            return Ok(OutputTarget::NickelPackage {
                contracts: output.include_contracts,
                validation: true,
                rich_exports: true,
                usage_patterns: true,
                package_metadata: PackageMetadata::default(),
                formatting: NickelFormatting::default(),
            });
        }
        if str_eq(t, "go") {
            let package_name = match &output.package_name {
                Some(n) => n.clone(),
                None => to_owned_string("generated"),
            };
            return Ok(OutputTarget::Go {
                package_name,
                imports: Vec::new(),
                tags: Vec::new(),
                generate_json_tags: output.include_json_tags,
            });
        }
        Err(PipelineError::ConfigError(concat("Unknown output type: ", t)))
    }

    /// The pipeline of a stage: its input and output, with the default
    /// transformations and layout.
    pub fn build_pipeline_for_stage(&self, stage: &StageConfig) -> (r: Result<UnifiedPipeline, PipelineError>)
        ensures
            match input_error(stage.input) {
                Some(msg) => r matches Err(e) && config_error(e, msg),
                None => match output_error(stage.output) {
                    Some(msg) => r matches Err(e) && config_error(e, msg),
                    None => r matches Ok(p) && input_source_ok(stage.input, p.input) && output_target_ok(
                        stage.output,
                        p.output,
                    ) && default_transforms(p.transforms@) && crate::pipeline::default_layout(p.layout),
                },
            },
    {
        let input_source = self.build_input_source(&stage.input)?;
        let output_target = self.build_output_target(&stage.output)?;
        let pipeline = PipelineBuilder::with_input(input_source).output(output_target).build();
        Ok(pipeline)
    }

    /// The pipelines of all the stages, in order, or the first stage's
    /// configuration error.
    pub fn build_pipelines(&self) -> (r: Result<Vec<UnifiedPipeline>, PipelineError>)
        ensures
            match r {
                Ok(ps) => ps@.len() == self.stages@.len() && forall|i: int|
                    0 <= i < ps@.len() ==> stage_error(#[trigger] self.stages@[i]) is None && input_source_ok(
                        self.stages@[i].input,
                        ps@[i].input,
                    ) && output_target_ok(self.stages@[i].output, ps@[i].output),
                Err(e) => exists|i: int|
                    0 <= i < self.stages@.len() && #[trigger] stage_error(self.stages@[i]) is Some && config_error(
                        e,
                        stage_error(self.stages@[i])->0,
                    ) && forall|j: int| 0 <= j < i ==> stage_error(#[trigger] self.stages@[j]) is None,
            },
    {
        let mut pipelines: Vec<UnifiedPipeline> = Vec::new();
        let mut i: usize = 0;
        while i < self.stages.len()
            invariant
                i <= self.stages.len(),
                pipelines@.len() == i,
                forall|j: int|
                    0 <= j < i ==> stage_error(#[trigger] self.stages@[j]) is None && input_source_ok(self.stages@[j].input, pipelines@[j].input) && output_target_ok(
                        self.stages@[j].output,
                        pipelines@[j].output,
                    ),
            decreases self.stages.len() - i,
        {
            match self.build_pipeline_for_stage(&self.stages[i]) {
                Ok(p) => {
                    pipelines.push(p);
                },
                Err(e) => {
                    assert(stage_error(self.stages@[i as int]) is Some);
                    return Err(e);
                },
            }
            i = i + 1;
        }
        Ok(pipelines)
    }
}

} // verus!
