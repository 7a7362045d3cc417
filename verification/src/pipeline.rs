//! The unified pipeline's configuration and result types: inputs, layouts,
//! outputs, errors with their context, symbol tables and statistics.

use vstd::prelude::*;
use crate::digraph::{
    digraph_add_edge, digraph_add_node, digraph_edge_at, digraph_edges, digraph_is_cyclic, digraph_new,
    digraph_scc, digraph_size, digraph_toposort, edges_within, has_cycle, petgraph_scc, petgraph_toposort,
};
use crate::ir::IR;
use crate::json::{duplicate_entries, json_entries_view, JsonValue, JsonView};
use crate::lookup::last_index_of;
use crate::text::{concat, str_eq, to_owned_string, views};

verus! {

broadcast use vstd::string::group_string_axioms;

/// Errors of the core library.
#[derive(Debug, Clone)]
pub enum CoreError {
    TypeConversion(String),
    InvalidType(String),
    UnsupportedFeature(String),
    Internal(String),
    CircularDependency(String),
    ModuleNotFound(String),
}

/// Error context for detailed diagnostics.
#[derive(Debug, Clone)]
pub struct ErrorContext {
    pub pipeline_stage: String,
    pub input_source: Option<String>,
    pub current_module: Option<String>,
    pub line_number: Option<u32>,
    pub column_number: Option<u32>,
    pub stack_trace: Vec<String>,
}

impl Default for ErrorContext {
    /// An `unknown` stage with nothing else known.
    fn default() -> (r: Self)
        ensures
            r.pipeline_stage@ == "unknown"@,
            r.input_source is None,
            r.current_module is None,
            r.line_number is None,
            r.column_number is None,
            r.stack_trace@.len() == 0,
    {
        ErrorContext {
            pipeline_stage: to_owned_string("unknown"),
            input_source: None,
            current_module: None,
            line_number: None,
            column_number: None,
            stack_trace: Vec::new(),
        }
    }
}

/// Details for input parsing failures.
#[derive(Debug, Clone)]
pub struct InputParsingFailedDetails {
    pub message: String,
    pub recovery_suggestion: Option<String>,
    pub context: ErrorContext,
}

/// Details for transform failures.
#[derive(Debug, Clone)]
pub struct TransformFailedDetails {
    pub transform: String,
    pub message: String,
    pub recovery_suggestion: Option<String>,
    pub context: ErrorContext,
}

/// Details for layout failures.
#[derive(Debug, Clone)]
pub struct LayoutFailedDetails {
    pub message: String,
    pub recovery_suggestion: Option<String>,
    pub context: ErrorContext,
}

/// Details for output failures.
#[derive(Debug, Clone)]
pub struct OutputFailedDetails {
    pub message: String,
    pub recovery_suggestion: Option<String>,
    pub context: ErrorContext,
}

/// Details for import resolution errors.
#[derive(Debug, Clone)]
pub struct ImportResolutionErrorDetails {
    pub message: String,
    pub missing_symbols: Vec<String>,
    pub available_symbols: Vec<String>,
    pub recovery_suggestion: Option<String>,
}

/// Details for type conversion errors.
#[derive(Debug, Clone)]
pub struct TypeConversionErrorDetails {
    pub from_type: String,
    pub to_type: String,
    pub message: String,
    pub recovery_suggestion: Option<String>,
}

/// Pipeline errors with recovery suggestions.
#[derive(Debug, Clone)]
pub enum PipelineError {
    InputParsingFailed(Box<InputParsingFailedDetails>),
    TransformFailed(Box<TransformFailedDetails>),
    LayoutFailed(Box<LayoutFailedDetails>),
    OutputFailed(Box<OutputFailedDetails>),
    ConfigError(String),
    ImportResolutionError(Box<ImportResolutionErrorDetails>),
    TypeConversionError(Box<TypeConversionErrorDetails>),
    Core(CoreError),
}

/// Error recovery strategies.
#[derive(Debug, Clone)]
pub enum RecoveryStrategy {
    /// Fail immediately on any error.
    FailFast,
    /// Continue with other stages and modules.
    Continue,
    /// Best-effort recovery with fallbacks.
    BestEffort { fallback_types: bool, skip_invalid_modules: bool, use_dynamic_types: bool },
    /// Interactive recovery.
    Interactive { prompt_for_fixes: bool, suggest_alternatives: bool },
}

impl Default for RecoveryStrategy {
    fn default() -> (r: Self)
        ensures
            r is FailFast,
    {
        RecoveryStrategy::FailFast
    }
}

/// Symbols imported into a module.
#[derive(Debug, Clone)]
pub struct ImportedSymbol {
    pub symbol_name: String,
    pub source_module: String,
    pub import_path: String,
    pub is_resolved: bool,
}

/// The symbols of one module.
#[derive(Debug, Clone)]
pub struct ModuleSymbols {
    /// The module's file.
    pub module_file: String,
    pub exported_symbols: Vec<String>,
    pub imported_symbols: Vec<ImportedSymbol>,
    pub private_symbols: Vec<String>,
}

/// A symbol that could not be resolved.
#[derive(Debug, Clone)]
pub struct UnresolvedSymbol {
    pub symbol_name: String,
    pub requested_by: String,
    pub context: String,
    pub suggested_fixes: Vec<String>,
}

/// Symbol table for import resolution analysis.
#[derive(Debug, Clone)]
pub struct SymbolTable {
    /// Symbols by module name.
    pub modules: Vec<(String, ModuleSymbols)>,
    pub global_symbols: Vec<String>,
    pub unresolved_symbols: Vec<UnresolvedSymbol>,
}

/// Performance metrics.
#[derive(Debug, Clone, Copy)]
pub struct PerformanceMetrics {
    pub parsing_time_ms: u64,
    pub transformation_time_ms: u64,
    pub layout_time_ms: u64,
    pub generation_time_ms: u64,
    pub io_time_ms: u64,
    pub cache_hits: u32,
    pub cache_misses: u32,
}

impl PerformanceMetrics {
    /// The metrics of two runs added field by field.
    pub fn combine(&self, other: &PerformanceMetrics) -> (r: PerformanceMetrics)
        requires
            self.parsing_time_ms + other.parsing_time_ms <= u64::MAX,
            self.transformation_time_ms + other.transformation_time_ms <= u64::MAX,
            self.layout_time_ms + other.layout_time_ms <= u64::MAX,
            self.generation_time_ms + other.generation_time_ms <= u64::MAX,
            self.io_time_ms + other.io_time_ms <= u64::MAX,
            self.cache_hits + other.cache_hits <= u32::MAX,
            self.cache_misses + other.cache_misses <= u32::MAX,
        ensures
            r.parsing_time_ms == self.parsing_time_ms + other.parsing_time_ms,
            r.transformation_time_ms == self.transformation_time_ms + other.transformation_time_ms,
            r.layout_time_ms == self.layout_time_ms + other.layout_time_ms,
            r.generation_time_ms == self.generation_time_ms + other.generation_time_ms,
            r.io_time_ms == self.io_time_ms + other.io_time_ms,
            r.cache_hits == self.cache_hits + other.cache_hits,
            r.cache_misses == self.cache_misses + other.cache_misses,
    {
        PerformanceMetrics {
            parsing_time_ms: self.parsing_time_ms + other.parsing_time_ms,
            transformation_time_ms: self.transformation_time_ms + other.transformation_time_ms,
            layout_time_ms: self.layout_time_ms + other.layout_time_ms,
            generation_time_ms: self.generation_time_ms + other.generation_time_ms,
            io_time_ms: self.io_time_ms + other.io_time_ms,
            cache_hits: self.cache_hits + other.cache_hits,
            cache_misses: self.cache_misses + other.cache_misses,
        }
    }
}

impl Default for PerformanceMetrics {
    fn default() -> (r: Self)
        ensures
            r.parsing_time_ms == 0 && r.transformation_time_ms == 0 && r.layout_time_ms == 0
                && r.generation_time_ms == 0 && r.io_time_ms == 0 && r.cache_hits == 0 && r.cache_misses
                == 0,
    {
        PerformanceMetrics {
            parsing_time_ms: 0,
            transformation_time_ms: 0,
            layout_time_ms: 0,
            generation_time_ms: 0,
            io_time_ms: 0,
            cache_hits: 0,
            cache_misses: 0,
        }
    }
}

/// Pipeline execution metadata.
#[derive(Debug, Clone)]
pub struct PipelineMetadata {
    pub name: String,
    pub version: String,
    pub description: Option<String>,
    pub created_at: Option<String>,
}

impl Default for PipelineMetadata {
    /// `default`, version `0.1.0`.
    fn default() -> (r: Self)
        ensures
            r.name@ == "default"@,
            r.version@ == "0.1.0"@,
            r.description is None,
            r.created_at is None,
    {
        PipelineMetadata {
            name: to_owned_string("default"),
            version: to_owned_string("0.1.0"),
            description: None,
            created_at: None,
        }
    }
}

/// Authentication for remote sources.
#[derive(Debug, Clone)]
pub enum AuthConfig {
    /// No authentication.
    NoAuth,
    BearerToken { token: String },
    BasicAuth { username: String, password: String },
    GitHubToken { token: String },
}

/// File formats.
#[derive(Debug, Clone)]
pub enum FileFormat {
    OpenAPI,
    CRD,
    Go,
    JsonSchema,
    Proto,
    Auto,
}

/// What to parse.
#[derive(Debug, Clone)]
pub enum InputSource {
    OpenAPI { url: String, version: String, domain: Option<String>, auth: Option<AuthConfig> },
    CRDs { urls: Vec<String>, domain: String, versions: Vec<String>, auth: Option<AuthConfig> },
    GoTypes { package: String, types: Vec<String>, version: Option<String>, go_module: Option<String> },
    LocalFiles { paths: Vec<String>, format: FileFormat, recursive: bool },
    GitRepository { url: String, branch: Option<String>, path: Option<String>, format: FileFormat },
}

/// Transformation steps.
#[derive(Debug)]
pub enum Transform {
    /// Normalize type names and structures.
    NormalizeTypes,
    /// Resolve cross-references and dependencies.
    ResolveReferences,
    /// Add Nickel contracts for validation.
    AddContracts { strict: bool },
    /// Validate schema consistency.
    ValidateSchema,
    /// Remove duplicate type definitions.
    DeduplicateTypes,
    /// Apply naming conventions.
    ApplyNamingConventions { style: NamingStyle },
    /// Apply special case rules.
    ApplySpecialCases { rules: Vec<String> },
    /// A custom transformation.
    Custom { name: String, config: JsonValue },
}

/// Naming convention styles.
#[derive(Debug, Clone)]
pub enum NamingStyle {
    CamelCase,
    PascalCase,
    SnakeCase,
    KebabCase,
    Preserve,
}

/// Module structure patterns.
#[derive(Debug, Clone)]
pub enum ModuleStructure {
    /// Always a `mod.ncl`.
    Consolidated,
    /// One file per type.
    Individual,
    /// By complexity.
    Hybrid { threshold: usize },
}

/// Version handling strategies.
#[derive(Debug, Clone)]
pub enum VersionHandling {
    Directories,
    Namespaced,
    Single,
}

/// How to organise modules.
#[derive(Debug, Clone)]
pub enum ModuleLayout {
    K8s { consolidate_versions: bool, include_alpha_beta: bool, root_exports: Vec<String>, api_group_structure: bool },
    CrossPlane { group_by_version: bool, api_extensions: bool, provider_specific: bool },
    Generic { namespace_pattern: String, module_structure: ModuleStructure, version_handling: VersionHandling },
    Flat { module_name: String },
    DomainBased { domain_separator: String, max_depth: usize },
}

/// Package metadata for package generation.
#[derive(Debug, Clone)]
pub struct PackageMetadata {
    pub name: String,
    pub version: String,
    pub description: String,
    pub homepage: Option<String>,
    pub repository: Option<String>,
    pub license: Option<String>,
    pub keywords: Vec<String>,
    pub authors: Vec<String>,
}

impl Default for PackageMetadata {
    /// `generated-package` `0.1.0`, MIT licensed.
    fn default() -> (r: Self)
        ensures
            r.name@ == "generated-package"@,
            r.version@ == "0.1.0"@,
            r.description@ == "Generated package"@,
            r.homepage is None,
            r.repository is None,
            r.license matches Some(l) && l@ == "MIT"@,
            r.keywords@.len() == 0,
            r.authors@.len() == 0,
    {
        PackageMetadata {
            name: to_owned_string("generated-package"),
            version: to_owned_string("0.1.0"),
            description: to_owned_string("Generated package"),
            homepage: None,
            repository: None,
            license: Some(to_owned_string("MIT")),
            keywords: Vec::new(),
            authors: Vec::new(),
        }
    }
}

/// Nickel formatting configuration.
#[derive(Debug, Clone)]
pub struct NickelFormatting {
    pub indent: usize,
    pub max_line_length: usize,
    pub sort_imports: bool,
    pub compact_records: bool,
}

impl Default for NickelFormatting {
    /// Two-space indent, 100 columns, sorted imports.
    fn default() -> (r: Self)
        ensures
            r.indent == 2,
            r.max_line_length == 100,
            r.sort_imports,
            !r.compact_records,
    {
        NickelFormatting { indent: 2, max_line_length: 100, sort_imports: true, compact_records: false }
    }
}

/// TypeScript export styles.
#[derive(Debug, Clone)]
pub enum TypeScriptExportStyle {
    ESModules,
    CommonJS,
    UMD,
    Namespace,
}

/// What to generate.
#[derive(Debug)]
pub enum OutputTarget {
    NickelPackage {
        contracts: bool,
        validation: bool,
        rich_exports: bool,
        usage_patterns: bool,
        package_metadata: PackageMetadata,
        formatting: NickelFormatting,
    },
    Go { package_name: String, imports: Vec<String>, tags: Vec<String>, generate_json_tags: bool },
    CUE { strict_mode: bool, constraints: bool, package_name: Option<String> },
    TypeScript { declarations: bool, namespace: Option<String>, export_style: TypeScriptExportStyle },
    Multi { targets: Vec<OutputTarget> },
}

/// Generation statistics.
#[derive(Debug, Clone)]
pub struct GenerationStats {
    pub types_generated: usize,
    pub modules_created: usize,
    pub imports_resolved: usize,
    pub lines_of_code: usize,
    pub generation_time_ms: u64,
}

/// Diagnostic severity levels.
#[derive(Debug, Clone)]
pub enum DiagnosticLevel {
    Info,
    Warning,
    Error,
}

/// Diagnostic information.
#[derive(Debug, Clone)]
pub struct Diagnostic {
    pub level: DiagnosticLevel,
    pub message: String,
    pub location: Option<String>,
    pub suggestion: Option<String>,
}

/// A generated package.
#[derive(Debug, Clone)]
pub struct GeneratedPackage {
    /// Generated files (path and content).
    pub files: Vec<(String, String)>,
    pub metadata: PackageMetadata,
    pub stats: GenerationStats,
    pub diagnostics: Vec<Diagnostic>,
}

// ---------------------------------------------------------------------------
// The pipeline
// ---------------------------------------------------------------------------

/// An instant of the monotonic clock.
#[verifier::external_type_specification]
#[verifier::external_body]
pub struct ExInstant(std::time::Instant);

/// The current instant (std `Instant::now`); nothing is promised of it.
#[verifier::external_body]
fn clock_now() -> (r: std::time::Instant) {
    std::time::Instant::now()
}

/// Milliseconds since `start` (std `Instant::elapsed`, then
/// `Duration::as_millis` truncated to 64 bits); nothing is promised of the
/// value, which depends on the clock.
#[verifier::external_body]
fn clock_elapsed_ms(start: &std::time::Instant) -> (r: u64) {
    start.elapsed().as_millis() as u64
}

/// A pipeline result.
pub type PipelineResult<T> = Result<T, PipelineError>;

/// The message and recovery suggestion of a failure to read an input
/// source, for each kind of source.
pub open spec fn input_failure(input: InputSource) -> (Seq<char>, Seq<char>) {
    match input {
        InputSource::OpenAPI { .. } => ("OpenAPI parsing not yet implemented"@, "Implement OpenAPI parser integration"@),
        InputSource::CRDs { .. } => ("CRD parsing not yet implemented"@, "Implement CRD parser integration"@),
        InputSource::GoTypes { .. } => ("Go type parsing not yet implemented"@, "Implement Go type parser integration"@),
        InputSource::LocalFiles { .. } => ("Local file parsing not yet implemented"@, "Implement local file parser integration"@),
        InputSource::GitRepository { .. } => (
            "Git repository parsing not yet implemented"@,
            "Implement Git repository parser integration"@,
        ),
    }
}

/// `e` is the failure to read `input`.
pub open spec fn is_input_failure(e: PipelineError, input: InputSource) -> bool {
    e matches PipelineError::InputParsingFailed(d) && {
        &&& d.message@ == input_failure(input).0
        &&& d.recovery_suggestion is Some
        &&& d.recovery_suggestion->0@ == input_failure(input).1
        &&& d.context.pipeline_stage@ == "unknown"@
    }
}

/// The transformations a pipeline starts with: normalize types, resolve
/// references, add non-strict contracts.
pub open spec fn default_transforms(ts: Seq<Transform>) -> bool {
    &&& ts.len() == 3
    &&& ts[0] is NormalizeTypes
    &&& ts[1] is ResolveReferences
    &&& ts[2] matches Transform::AddContracts { strict } && !strict
}

/// The layout a pipeline starts with: `{domain}/{version}` modules,
/// consolidated, with version directories.
pub open spec fn default_layout(l: ModuleLayout) -> bool {
    l matches ModuleLayout::Generic { namespace_pattern, module_structure, version_handling }
        && namespace_pattern@ == "{domain}/{version}"@ && module_structure is Consolidated
        && version_handling is Directories
}

/// The output a builder starts with: a Nickel package with contracts,
/// validation and rich exports but no usage patterns, default metadata and
/// formatting.
pub open spec fn default_output(o: OutputTarget) -> bool {
    o matches OutputTarget::NickelPackage {
        contracts,
        validation,
        rich_exports,
        usage_patterns,
        package_metadata,
        formatting,
    } && contracts && validation && rich_exports && !usage_patterns && package_metadata.name@
        == "generated-package"@ && formatting.indent == 2
}

/// The unified pipeline: input, transformations, layout, output.
#[derive(Debug)]
pub struct UnifiedPipeline {
    pub input: InputSource,
    pub transforms: Vec<Transform>,
    pub layout: ModuleLayout,
    pub output: OutputTarget,
    pub metadata: PipelineMetadata,
}

fn failed_input(message: &str, suggestion: &str) -> (r: PipelineError)
    ensures
        r matches PipelineError::InputParsingFailed(d) && {
            &&& d.message@ == message@
            &&& d.recovery_suggestion is Some
            &&& d.recovery_suggestion->0@ == suggestion@
            &&& d.context.pipeline_stage@ == "unknown"@
        },
{
    PipelineError::InputParsingFailed(
        Box::new(
            InputParsingFailedDetails {
                message: to_owned_string(message),
                recovery_suggestion: Some(to_owned_string(suggestion)),
                context: ErrorContext::default(),
            },
        ),
    )
}

impl UnifiedPipeline {
    /// A pipeline with the default transformations, layout and metadata.
    pub fn new(input: InputSource, output: OutputTarget) -> (r: Self)
        ensures
            r.input == input,
            r.output == output,
            default_transforms(r.transforms@),
            default_layout(r.layout),
            r.metadata.name@ == "default"@,
    {
        let mut transforms: Vec<Transform> = Vec::new();
        transforms.push(Transform::NormalizeTypes);
        transforms.push(Transform::ResolveReferences);
        transforms.push(Transform::AddContracts { strict: false });
        UnifiedPipeline {
            input,
            transforms,
            layout: ModuleLayout::Generic {
                namespace_pattern: to_owned_string("{domain}/{version}"),
                module_structure: ModuleStructure::Consolidated,
                version_handling: VersionHandling::Directories,
            },
            output,
            metadata: PipelineMetadata::default(),
        }
    }

    /// Run the pipeline: read the input, transform, lay out and generate.
    /// No input source can be read yet, so the run fails with the input's
    /// reading error.
    pub fn execute(&self) -> (r: PipelineResult<GeneratedPackage>)
        ensures
            r matches Err(e) && is_input_failure(e, self.input),
    {
        let start_time = clock_now();
        let mut diagnostics: Vec<Diagnostic> = Vec::new();
        let raw_ir = self.parse_input(&mut diagnostics)?;
        let transformed_ir = self.apply_transforms(raw_ir, &mut diagnostics)?;
        let structured_ir = self.organize_layout(transformed_ir, &mut diagnostics)?;
        let mut generated = self.generate_output(structured_ir, &mut diagnostics)?;
        generated.stats.generation_time_ms = clock_elapsed_ms(&start_time);
        generated.diagnostics = diagnostics;
        Ok(generated)
    }

    /// Check the configuration: input, transformations, layout and output
    /// are all accepted.
    pub fn validate(&self) -> (r: PipelineResult<()>)
        ensures
            r is Ok,
    {
        self.validate_input()?;
        self.validate_transforms()?;
        self.validate_layout()?;
        self.validate_output()?;
        Ok(())
    }

    /// Read the input source into the representation.
    fn parse_input(&self, diagnostics: &mut Vec<Diagnostic>) -> (r: PipelineResult<IR>)
        ensures
            r matches Err(e) && is_input_failure(e, self.input),
            *final(diagnostics) == *old(diagnostics),
    {
        match &self.input {
            InputSource::OpenAPI { .. } => Err(failed_input("OpenAPI parsing not yet implemented", "Implement OpenAPI parser integration")),
            InputSource::CRDs { .. } => Err(failed_input("CRD parsing not yet implemented", "Implement CRD parser integration")),
            InputSource::GoTypes { .. } => Err(failed_input("Go type parsing not yet implemented", "Implement Go type parser integration")),
            InputSource::LocalFiles { .. } => Err(failed_input("Local file parsing not yet implemented", "Implement local file parser integration")),
            InputSource::GitRepository { .. } => Err(
                failed_input("Git repository parsing not yet implemented", "Implement Git repository parser integration"),
            ),
        }
    }

    /// Apply the transformations in order; each leaves the representation
    /// as it is.
    fn apply_transforms(&self, ir: IR, diagnostics: &mut Vec<Diagnostic>) -> (r: PipelineResult<IR>)
        ensures
            r == Ok::<IR, PipelineError>(ir),
            *final(diagnostics) == *old(diagnostics),
    {
        let mut current_ir = ir;
        let mut i: usize = 0;
        while i < self.transforms.len()
            invariant
                current_ir == ir,
            decreases self.transforms.len() - i,
        {
            current_ir = self.apply_single_transform(current_ir, &self.transforms[i])?;
            i = i + 1;
        }
        Ok(current_ir)
    }

    /// Apply one transformation: the representation stays as it is.
    fn apply_single_transform(&self, ir: IR, transform: &Transform) -> (r: PipelineResult<IR>)
        ensures
            r == Ok::<IR, PipelineError>(ir),
    {
        match transform {
            Transform::NormalizeTypes => Ok(ir),
            Transform::ResolveReferences => Ok(ir),
            Transform::AddContracts { .. } => Ok(ir),
            _ => Ok(ir),
        }
    }

    /// Organize the representation by the layout: it stays as it is.
    fn organize_layout(&self, ir: IR, diagnostics: &mut Vec<Diagnostic>) -> (r: PipelineResult<IR>)
        ensures
            r == Ok::<IR, PipelineError>(ir),
            *final(diagnostics) == *old(diagnostics),
    {
        match &self.layout {
            ModuleLayout::K8s { .. } => Ok(ir),
            ModuleLayout::CrossPlane { .. } => Ok(ir),
            ModuleLayout::Generic { .. } => Ok(ir),
            _ => Ok(ir),
        }
    }

    /// Generate the output: an empty Nickel package, or an error for the
    /// other targets.
    fn generate_output(&self, ir: IR, diagnostics: &mut Vec<Diagnostic>) -> (r: PipelineResult<GeneratedPackage>)
        ensures
            *final(diagnostics) == *old(diagnostics),
            match self.output {
                OutputTarget::NickelPackage { .. } => r matches Ok(p) && p.files@.len() == 0 && p.diagnostics@.len() == 0
                    && p.stats.types_generated == 0 && p.stats.modules_created == 0 && p.stats.generation_time_ms == 0
                    && p.metadata.name@ == "generated-package"@,
                _ => r matches Err(PipelineError::OutputFailed(d)) && d.message@ == "Output target not yet implemented"@,
            },
    {
        match &self.output {
            OutputTarget::NickelPackage { .. } => Ok(
                GeneratedPackage {
                    files: Vec::new(),
                    metadata: PackageMetadata::default(),
                    stats: GenerationStats {
                        types_generated: 0,
                        modules_created: 0,
                        imports_resolved: 0,
                        lines_of_code: 0,
                        generation_time_ms: 0,
                    },
                    diagnostics: Vec::new(),
                },
            ),
            _ => Err(
                PipelineError::OutputFailed(
                    Box::new(
                        OutputFailedDetails {
                            message: to_owned_string("Output target not yet implemented"),
                            recovery_suggestion: Some(to_owned_string("Implement output target generation")),
                            context: ErrorContext::default(),
                        },
                    ),
                ),
            ),
        }
    }

    fn validate_input(&self) -> (r: PipelineResult<()>)
        ensures
            r is Ok,
    {
        Ok(())
    }

    fn validate_transforms(&self) -> (r: PipelineResult<()>)
        ensures
            r is Ok,
    {
        Ok(())
    }

    fn validate_layout(&self) -> (r: PipelineResult<()>)
        ensures
            r is Ok,
    {
        Ok(())
    }

    fn validate_output(&self) -> (r: PipelineResult<()>)
        ensures
            r is Ok,
    {
        Ok(())
    }
}

/// Builder of pipelines.
pub struct PipelineBuilder {
    pipeline: UnifiedPipeline,
}

impl PipelineBuilder {
    /// The pipeline being built.
    pub closed spec fn current(&self) -> UnifiedPipeline {
        self.pipeline
    }

    /// Start from an input source, with the default Nickel package output.
    pub fn with_input(input: InputSource) -> (r: Self)
        ensures
            r.current().input == input,
            default_transforms(r.current().transforms@),
            default_layout(r.current().layout),
            default_output(r.current().output),
            r.current().metadata.name@ == "default"@,
    {
        PipelineBuilder {
            pipeline: UnifiedPipeline::new(
                input,
                OutputTarget::NickelPackage {
                    contracts: true,
                    validation: true,
                    rich_exports: true,
                    usage_patterns: false,
                    package_metadata: PackageMetadata::default(),
                    formatting: NickelFormatting::default(),
                },
            ),
        }
    }

    /// Add a transformation step after the others.
    pub fn transform(self, transform: Transform) -> (r: Self)
        ensures
            r.current() == (UnifiedPipeline { transforms: r.current().transforms, ..self.current() }),
            r.current().transforms@ == self.current().transforms@.push(transform),
    {
        let mut b = self;
        b.pipeline.transforms.push(transform);
        b
    }

    /// Set the layout.
    pub fn layout(self, layout: ModuleLayout) -> (r: Self)
        ensures
            r.current() == (UnifiedPipeline { layout, ..self.current() }),
    {
        let mut b = self;
        b.pipeline.layout = layout;
        b
    }

    /// Set the output target.
    pub fn output(self, output: OutputTarget) -> (r: Self)
        ensures
            r.current() == (UnifiedPipeline { output, ..self.current() }),
    {
        let mut b = self;
        b.pipeline.output = output;
        b
    }

    /// Set the metadata.
    pub fn metadata(self, metadata: PipelineMetadata) -> (r: Self)
        ensures
            r.current() == (UnifiedPipeline { metadata, ..self.current() }),
    {
        let mut b = self;
        b.pipeline.metadata = metadata;
        b
    }

    /// The pipeline built.
    pub fn build(self) -> (r: UnifiedPipeline)
        ensures
            r == self.current(),
    {
        self.pipeline
    }
}


// ---------------------------------------------------------------------------
// Dependency graphs of pipelines
// ---------------------------------------------------------------------------

/// A node of a pipeline's dependency graph.
#[derive(Debug)]
pub struct DependencyNode {
    pub id: String,
    pub module_file: String,
    /// `input`, `transform` or `output`.
    pub node_type: String,
    /// Further data, in key order.
    pub metadata: Vec<(String, JsonValue)>,
}

impl View for DependencyNode {
    type V = (Seq<char>, Seq<char>, Seq<char>, Seq<(Seq<char>, JsonView)>);

    open spec fn view(&self) -> (Seq<char>, Seq<char>, Seq<char>, Seq<(Seq<char>, JsonView)>) {
        (self.id@, self.module_file@, self.node_type@, json_entries_view(self.metadata@))
    }
}

impl DependencyNode {
    /// A copy of this node.
    pub fn duplicate(&self) -> (r: DependencyNode)
        ensures
            r@ == self@,
    {
        DependencyNode {
            id: self.id.clone(),
            module_file: self.module_file.clone(),
            node_type: self.node_type.clone(),
            metadata: duplicate_entries(&self.metadata),
        }
    }
}

/// An edge of a pipeline's dependency graph.
#[derive(Debug)]
pub struct DependencyEdge {
    /// `depends_on`, `generates` or `imports`.
    pub edge_type: String,
    /// The edge's weight, as decimal text.
    pub weight: Option<String>,
    /// Further data, in key order.
    pub metadata: Vec<(String, JsonValue)>,
}

impl View for DependencyEdge {
    type V = (Seq<char>, Option<Seq<char>>, Seq<(Seq<char>, JsonView)>);

    open spec fn view(&self) -> (Seq<char>, Option<Seq<char>>, Seq<(Seq<char>, JsonView)>) {
        (
            self.edge_type@,
            match self.weight {
                Some(w) => Some(w@),
                None => None,
            },
            json_entries_view(self.metadata@),
        )
    }
}

impl DependencyEdge {
    /// A copy of this edge.
    pub fn duplicate(&self) -> (r: DependencyEdge)
        ensures
            r@ == self@,
    {
        DependencyEdge {
            edge_type: self.edge_type.clone(),
            weight: match &self.weight {
                Some(w) => Some(w.clone()),
                None => None,
            },
            metadata: duplicate_entries(&self.metadata),
        }
    }
}

/// An edge of an exported graph: the ids it joins and its data.
#[derive(Debug)]
pub struct SerializableEdge {
    pub from: String,
    pub to: String,
    pub edge_data: DependencyEdge,
}

/// A dependency graph exported as lists, for diagnostics.
#[derive(Debug)]
pub struct SerializableDependencyGraph {
    pub nodes: Vec<DependencyNode>,
    pub edges: Vec<SerializableEdge>,
}

/// The ids of nodes.
pub open spec fn node_ids(nodes: Seq<DependencyNode>) -> Seq<Seq<char>> {
    nodes.map_values(|n: DependencyNode| n.id@)
}

/// The ids of the nodes listed in `order`.
pub open spec fn ids_at(nodes: Seq<DependencyNode>, order: Seq<usize>) -> Seq<Seq<char>> {
    order.map_values(|i: usize| nodes[i as int].id@)
}

/// The dependency graph of a pipeline's stages: node `i` is the `i`-th node
/// added, edge `k` carries the `k`-th edge's data. A node is found by its
/// id; of two nodes with one id, the later one.
#[derive(Debug)]
pub struct PipelineDependencyGraph {
    graph: petgraph::graph::DiGraph<(), ()>,
    nodes: Vec<DependencyNode>,
    edge_data: Vec<DependencyEdge>,
}

impl PipelineDependencyGraph {
    /// One node value per node and one edge value per edge; edges join
    /// nodes.
    pub closed spec fn wf(&self) -> bool {
        &&& digraph_size(self.graph) == self.nodes@.len()
        &&& digraph_edges(self.graph).len() == self.edge_data@.len()
        &&& digraph_edges(self.graph).len() <= u32::MAX
        &&& edges_within(digraph_size(self.graph), digraph_edges(self.graph))
    }

    /// The nodes, by number.
    pub closed spec fn node_list(&self) -> Seq<DependencyNode> {
        self.nodes@
    }

    /// The edges, as node numbers, in the order they were added.
    pub closed spec fn edges(&self) -> Seq<(usize, usize)> {
        digraph_edges(self.graph)
    }

    /// The edges' data, by edge number.
    pub closed spec fn edge_list(&self) -> Seq<DependencyEdge> {
        self.edge_data@
    }

    /// Whether the graph has a cycle.
    pub open spec fn cyclic(&self) -> bool {
        has_cycle(self.node_list().len(), self.edges())
    }

    /// What ordering the graph gives: the ids in `petgraph`'s topological
    /// order, or the message that the graph has a cycle.
    pub open spec fn order_outcome(&self) -> Result<Seq<Seq<char>>, Seq<char>> {
        if self.cyclic() {
            Err("Graph contains cycles"@)
        } else {
            Ok(ids_at(self.node_list(), petgraph_toposort(self.node_list().len(), self.edges())))
        }
    }

    /// A graph without nodes.
    pub fn new() -> (r: Self)
        ensures
            r.wf(),
            r.node_list().len() == 0,
            r.edges().len() == 0,
            r.edge_list().len() == 0,
    {
        PipelineDependencyGraph { graph: digraph_new(), nodes: Vec::new(), edge_data: Vec::new() }
    }

    /// Add a node and return its number.
    pub fn add_node(&mut self, node: DependencyNode) -> (r: usize)
        requires
            old(self).wf(),
            old(self).node_list().len() < u32::MAX,
        ensures
            final(self).wf(),
            r == old(self).node_list().len(),
            final(self).node_list() == old(self).node_list().push(node),
            final(self).edges() == old(self).edges(),
            final(self).edge_list() == old(self).edge_list(),
    {
        let idx = digraph_add_node(&mut self.graph);
        self.nodes.push(node);
        idx
    }

    /// The number of the node with this id (the last one added).
    fn find_node(&self, id: &str) -> (r: Option<usize>)
        ensures
            match r {
                Some(i) => last_index_of(node_ids(self.node_list()), id@) == Some(i as int) && i
                    < self.node_list().len(),
                None => last_index_of(node_ids(self.node_list()), id@) is None,
            },
    {
        let ghost ids = node_ids(self.nodes@);
        let mut j: usize = self.nodes.len();
        assert(ids.take(j as int) =~= ids);
        while j > 0
            invariant
                ids == node_ids(self.nodes@),
                ids.len() == self.nodes.len(),
                j <= self.nodes.len(),
                last_index_of(ids, id@) == last_index_of(ids.take(j as int), id@),
            decreases j,
        {
            if str_eq(self.nodes[j - 1].id.as_str(), id) {
                assert(ids.take(j as int).last() == id@);
                return Some(j - 1);
            }
            assert(ids.take(j as int).drop_last() =~= ids.take(j - 1));
            j = j - 1;
        }
        None
    }

    /// Add an edge from the node with id `from_id` to the node with id
    /// `to_id`, or report the first of them that is not a node.
    pub fn add_edge(&mut self, from_id: &str, to_id: &str, edge: DependencyEdge) -> (r: Result<(), String>)
        requires
            old(self).wf(),
            old(self).edges().len() < u32::MAX,
        ensures
            final(self).wf(),
            final(self).node_list() == old(self).node_list(),
            match (last_index_of(node_ids(old(self).node_list()), from_id@), last_index_of(node_ids(old(self).node_list()), to_id@)) {
                (Some(a), Some(b)) => {
                    &&& r is Ok
                    &&& final(self).edges() == old(self).edges().push((a as usize, b as usize))
                    &&& final(self).edge_list() == old(self).edge_list().push(edge)
                },
                (None, _) => {
                    &&& r matches Err(m) && m@ == "Node not found: "@ + from_id@
                    &&& final(self).edges() == old(self).edges()
                    &&& final(self).edge_list() == old(self).edge_list()
                },
                (Some(_), None) => {
                    &&& r matches Err(m) && m@ == "Node not found: "@ + to_id@
                    &&& final(self).edges() == old(self).edges()
                    &&& final(self).edge_list() == old(self).edge_list()
                },
            },
    {
        let from_idx = match self.find_node(from_id) {
            Some(i) => i,
            None => {
                return Err(concat("Node not found: ", from_id));
            },
        };
        let to_idx = match self.find_node(to_id) {
            Some(i) => i,
            None => {
                return Err(concat("Node not found: ", to_id));
            },
        };
        digraph_add_edge(&mut self.graph, from_idx, to_idx);
        self.edge_data.push(edge);
        Ok(())
    }

    /// Whether the graph has a cycle.
    pub fn has_cycles(&self) -> (r: bool)
        requires
            self.wf(),
        ensures
            r == self.cyclic(),
    {
        digraph_is_cyclic(&self.graph)
    }

    /// The ids of the nodes listed in `order`.
    fn ids_of(&self, order: &Vec<usize>) -> (r: Vec<String>)
        requires
            forall|k: int| 0 <= k < order@.len() ==> order@[k] < self.node_list().len(),
        ensures
            views(r@) == ids_at(self.node_list(), order@),
    {
        let mut out: Vec<String> = Vec::new();
        let mut k: usize = 0;
        while k < order.len()
            invariant
                forall|k: int| 0 <= k < order@.len() ==> order@[k] < self.node_list().len(),
                k <= order.len(),
                views(out@) == ids_at(self.node_list(), order@.take(k as int)),
            decreases order.len() - k,
        {
            let ghost o0 = out@;
            let i = order[k];
            out.push(self.nodes[i].id.clone());
            assert(views(out@) =~= views(o0).push(self.node_list()[i as int].id@));
            assert(ids_at(self.node_list(), order@.take(k + 1)) =~= ids_at(self.node_list(), order@.take(k as int)).push(
                self.node_list()[i as int].id@,
            ));
            k = k + 1;
        }
        assert(order@.take(order.len() as int) =~= order@);
        out
    }

    /// The node ids in an order to run them (each node before those its
    /// edges lead to), or the message that the graph has a cycle.
    pub fn topological_order(&self) -> (r: Result<Vec<String>, String>)
        requires
            self.wf(),
        ensures
            match r {
                Ok(ids) => self.order_outcome() == Ok::<Seq<Seq<char>>, Seq<char>>(views(ids@)),
                Err(m) => self.order_outcome() == Err::<Seq<Seq<char>>, Seq<char>>(m@),
            },
    {
        match digraph_toposort(&self.graph) {
            Some(order) => Ok(self.ids_of(&order)),
            None => Err(to_owned_string("Graph contains cycles")),
        }
    }

    /// The strongly connected components, as node ids, in `petgraph`'s
    /// order.
    pub fn strongly_connected_components(&self) -> (r: Vec<Vec<String>>)
        requires
            self.wf(),
        ensures
            r@.map_values(|c: Vec<String>| views(c@)) == petgraph_scc(self.node_list().len(), self.edges()).map_values(
                |c: Seq<usize>| ids_at(self.node_list(), c),
            ),
    {
        let comps = digraph_scc(&self.graph);
        let ghost cs = comps@.map_values(|c: Vec<usize>| c@);
        let mut out: Vec<Vec<String>> = Vec::new();
        let mut i: usize = 0;
        while i < comps.len()
            invariant
                self.wf(),
                cs == comps@.map_values(|c: Vec<usize>| c@),
                crate::digraph::is_scc_partition(self.node_list().len(), self.edges(), cs),
                i <= comps.len(),
                out@.map_values(|c: Vec<String>| views(c@)) == cs.take(i as int).map_values(
                    |c: Seq<usize>| ids_at(self.node_list(), c),
                ),
            decreases comps.len() - i,
        {
            assert(cs[i as int] == comps@[i as int]@);
            assert forall|k: int| 0 <= k < comps@[i as int]@.len() implies comps@[i as int]@[k] < self.node_list().len() by {
                assert(cs[i as int][k] == comps@[i as int]@[k]);
            }
            let ids = self.ids_of(&comps[i]);
            let ghost o0 = out@;
            out.push(ids);
            assert(out@.map_values(|c: Vec<String>| views(c@)) =~= o0.map_values(|c: Vec<String>| views(c@)).push(
                views(ids@),
            ));
            assert(cs.take(i + 1).map_values(|c: Seq<usize>| ids_at(self.node_list(), c)) =~= cs.take(
                i as int,
            ).map_values(|c: Seq<usize>| ids_at(self.node_list(), c)).push(ids_at(self.node_list(), cs[i as int])));
            i = i + 1;
        }
        assert(cs.take(i as int) =~= cs);
        out
    }

    /// The graph as lists: copies of its nodes, and each edge with the ids
    /// it joins and a copy of its data, in order.
    pub fn to_serializable(&self) -> (r: SerializableDependencyGraph)
        requires
            self.wf(),
        ensures
            r.nodes@.map_values(|n: DependencyNode| n@) == self.node_list().map_values(|n: DependencyNode| n@),
            r.edges@.len() == self.edges().len(),
            forall|k: int|
                0 <= k < r.edges@.len() ==> {
                    &&& (#[trigger] r.edges@[k]).from@ == self.node_list()[self.edges()[k].0 as int].id@
                    &&& r.edges@[k].to@ == self.node_list()[self.edges()[k].1 as int].id@
                    &&& r.edges@[k].edge_data@ == self.edge_list()[k]@
                },
    {
        let mut nodes: Vec<DependencyNode> = Vec::new();
        let mut i: usize = 0;
        while i < self.nodes.len()
            invariant
                i <= self.nodes.len(),
                nodes@.map_values(|n: DependencyNode| n@) == self.nodes@.take(i as int).map_values(|n: DependencyNode| n@),
            decreases self.nodes.len() - i,
        {
            let ghost n0 = nodes@;
            nodes.push(self.nodes[i].duplicate());
            assert(nodes@.map_values(|n: DependencyNode| n@) =~= n0.map_values(|n: DependencyNode| n@).push(
                self.nodes@[i as int]@,
            ));
            assert(self.nodes@.take(i + 1).map_values(|n: DependencyNode| n@) =~= self.nodes@.take(i as int).map_values(
                |n: DependencyNode| n@,
            ).push(self.nodes@[i as int]@));
            i = i + 1;
        }
        assert(self.nodes@.take(i as int) =~= self.nodes@);
        let mut edges: Vec<SerializableEdge> = Vec::new();
        let mut k: usize = 0;
        while k < self.edge_data.len()
            invariant
                self.wf(),
                k <= self.edge_data.len(),
                edges@.len() == k,
                forall|j: int|
                    0 <= j < k ==> {
                        &&& (#[trigger] edges@[j]).from@ == self.node_list()[self.edges()[j].0 as int].id@
                        &&& edges@[j].to@ == self.node_list()[self.edges()[j].1 as int].id@
                        &&& edges@[j].edge_data@ == self.edge_list()[j]@
                    },
            decreases self.edge_data.len() - k,
        {
            let (a, b) = match digraph_edge_at(&self.graph, k) {
                Some(e) => e,
                None => (0, 0),
            };
            assert(self.edges()[k as int] == (a, b));
            assert(a < self.nodes@.len() && b < self.nodes@.len());
            edges.push(
                SerializableEdge {
                    from: self.nodes[a].id.clone(),
                    to: self.nodes[b].id.clone(),
                    edge_data: self.edge_data[k].duplicate(),
                },
            );
            k = k + 1;
        }
        SerializableDependencyGraph { nodes, edges }
    }
}

impl Default for PipelineDependencyGraph {
    /// A graph without nodes.
    fn default() -> (r: Self)
        ensures
            r.wf(),
            r.node_list().len() == 0,
            r.edges().len() == 0,
    {
        Self::new()
    }
}

/// Ordering a pipeline's graph fails exactly when the graph has a cycle:
/// `topological_order` gives an error when, and only when, `has_cycles`
/// is true.
pub proof fn law_order_fails_iff_cyclic(g: PipelineDependencyGraph)
    ensures
        g.order_outcome() is Err <==> g.cyclic(),
{
}

} // verus!
