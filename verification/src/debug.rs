//! Debug configuration and the debug information collected while
//! compiling.

use vstd::prelude::*;
use crate::lookup::{find_key, keys_of, last_index_of, lemma_last_index_of};

verus! {

/// Debug configuration passed through the compilation pipeline.
#[derive(Debug, Clone)]
pub struct DebugConfig {
    /// Enable import debugging.
    pub debug_imports: bool,
    /// Where to export debug information.
    pub export_path: Option<String>,
    /// Tracing level (0 off, 1 info, 2 debug, 3 trace).
    pub trace_level: u8,
}

impl DebugConfig {
    /// Everything off.
    pub fn new() -> (r: DebugConfig)
        ensures
            !r.debug_imports,
            r.export_path is None,
            r.trace_level == 0,
    {
        DebugConfig { debug_imports: false, export_path: None, trace_level: 0 }
    }

    /// The configuration with import debugging switched.
    pub fn with_imports(self, enabled: bool) -> (r: DebugConfig)
        ensures
            r == (DebugConfig { debug_imports: enabled, ..self }),
    {
        let mut c = self;
        c.debug_imports = enabled;
        c
    }

    /// The configuration with an export path.
    pub fn with_export(self, path: Option<String>) -> (r: DebugConfig)
        ensures
            r == (DebugConfig { export_path: path, ..self }),
    {
        let mut c = self;
        c.export_path = path;
        c
    }

    /// The configuration with a tracing level.
    pub fn with_trace_level(self, level: u8) -> (r: DebugConfig)
        ensures
            r == (DebugConfig { trace_level: level, ..self }),
    {
        let mut c = self;
        c.trace_level = level;
        c
    }

    /// Import debugging is on, explicitly or through a tracing level of at
    /// least 2.
    pub fn should_debug_imports(&self) -> (r: bool)
        ensures
            r == (self.debug_imports || self.trace_level >= 2),
    {
        self.debug_imports || self.trace_level >= 2
    }

    /// Debug data is exported when an export path is set.
    pub fn should_export(&self) -> (r: bool)
        ensures
            r == self.export_path is Some,
    {
        self.export_path.is_some()
    }
}

impl Default for DebugConfig {
    fn default() -> (r: Self)
        ensures
            !r.debug_imports,
            r.export_path is None,
            r.trace_level == 0,
    {
        Self::new()
    }
}

/// One import found for a type.
#[derive(Debug, Clone)]
pub struct ImportDebugEntry {
    pub dependency: String,
    pub import_statement: String,
    pub import_path: String,
    pub resolution_strategy: String,
}

/// A symbol as recorded in the symbol table.
#[derive(Debug, Clone)]
pub struct SymbolDebugInfo {
    pub name: String,
    pub module: String,
    pub group: String,
    pub version: String,
}

/// One import path calculation.
#[derive(Debug, Clone)]
pub struct PathCalculationDebug {
    pub from_module: String,
    pub to_module: String,
    pub from_group: String,
    pub from_version: String,
    pub to_group: String,
    pub to_version: String,
    pub calculated_path: String,
    pub typename: String,
}

/// Debug information collected during import resolution of one type.
#[derive(Debug, Clone)]
pub struct ImportDebugInfo {
    pub module_name: String,
    pub typename: String,
    pub imports: Vec<ImportDebugEntry>,
    /// The symbol table, by symbol name.
    pub symbol_table: Vec<(String, SymbolDebugInfo)>,
    pub path_calculations: Vec<PathCalculationDebug>,
}

/// A module name transformation.
#[derive(Debug, Clone)]
pub struct ModuleNameTransform {
    pub original: String,
    pub normalized: String,
    pub group: String,
    pub version: String,
    pub reason: String,
}

/// An attempt to extract the imports of a type.
#[derive(Debug, Clone)]
pub struct ImportExtractionAttempt {
    pub module: String,
    pub typename: String,
    pub strategy: String,
    pub success: bool,
    pub imports_found: usize,
    pub error: Option<String>,
}

/// Debug information for a whole compilation.
#[derive(Debug, Clone)]
pub struct CompilationDebugInfo {
    /// Import debug information by module name, one entry per module.
    pub modules: Vec<(String, Vec<ImportDebugInfo>)>,
    pub module_name_transforms: Vec<ModuleNameTransform>,
    pub import_extractions: Vec<ImportExtractionAttempt>,
    pub errors: Vec<String>,
}

/// The per-module table with each module's entries as a sequence.
pub open spec fn module_table(v: Seq<(String, Vec<ImportDebugInfo>)>) -> Seq<(Seq<char>, Seq<ImportDebugInfo>)> {
    v.map_values(|e: (String, Vec<ImportDebugInfo>)| (e.0@, e.1@))
}

impl CompilationDebugInfo {
    /// Nothing collected.
    pub fn new() -> (r: CompilationDebugInfo)
        ensures
            r.modules@.len() == 0,
            r.module_name_transforms@.len() == 0,
            r.import_extractions@.len() == 0,
            r.errors@.len() == 0,
    {
        CompilationDebugInfo {
            modules: Vec::new(),
            module_name_transforms: Vec::new(),
            import_extractions: Vec::new(),
            errors: Vec::new(),
        }
    }

    /// Append import debug information to a module's entry, creating the
    /// entry when the module has none.
    pub fn add_import_debug(&mut self, module: &str, info: ImportDebugInfo)
        ensures
            match last_index_of(keys_of(old(self).modules@), module@) {
                Some(i) => module_table(final(self).modules@) == module_table(old(self).modules@).update(
                    i,
                    (module@, module_table(old(self).modules@)[i].1.push(info)),
                ),
                None => module_table(final(self).modules@) == module_table(old(self).modules@).push(
                    (module@, seq![info]),
                ),
            },
            final(self).module_name_transforms == old(self).module_name_transforms,
            final(self).import_extractions == old(self).import_extractions,
            final(self).errors == old(self).errors,
    {
        proof {
            lemma_last_index_of(keys_of(self.modules@), module@);
        }
        match find_key(&self.modules, module) {
            Some(i) => {
                let ghost t0 = module_table(self.modules@);
                let mut entry = self.modules.remove(i);
                entry.1.push(info);
                let ghost ev = (entry.0@, entry.1@);
                self.modules.insert(i, entry);
                assert(keys_of(old(self).modules@)[i as int] == module@);
                assert(module_table(self.modules@) =~= t0.update(i as int, ev));
            },
            None => {
                let mut infos: Vec<ImportDebugInfo> = Vec::new();
                infos.push(info);
                let ghost t0 = module_table(self.modules@);
                let key = crate::text::to_owned_string(module);
                assert(infos@ =~= seq![info]);
                self.modules.push((key, infos));
                assert(module_table(self.modules@) =~= t0.push((module@, seq![info])));
            },
        }
    }

    /// Record a module name transformation.
    pub fn add_module_transform(&mut self, transform: ModuleNameTransform)
        ensures
            final(self).module_name_transforms@ == old(self).module_name_transforms@.push(transform),
            final(self).modules == old(self).modules,
            final(self).import_extractions == old(self).import_extractions,
            final(self).errors == old(self).errors,
    {
        self.module_name_transforms.push(transform);
    }

    /// Record an import extraction attempt.
    pub fn add_extraction_attempt(&mut self, attempt: ImportExtractionAttempt)
        ensures
            final(self).import_extractions@ == old(self).import_extractions@.push(attempt),
            final(self).modules == old(self).modules,
            final(self).module_name_transforms == old(self).module_name_transforms,
            final(self).errors == old(self).errors,
    {
        self.import_extractions.push(attempt);
    }

    /// Record an error.
    pub fn add_error(&mut self, error: String)
        ensures
            final(self).errors@ == old(self).errors@.push(error),
            final(self).modules == old(self).modules,
            final(self).module_name_transforms == old(self).module_name_transforms,
            final(self).import_extractions == old(self).import_extractions,
    {
        self.errors.push(error);
    }
}

impl Default for CompilationDebugInfo {
    fn default() -> (r: Self)
        ensures
            r.modules@.len() == 0,
            r.module_name_transforms@.len() == 0,
            r.import_extractions@.len() == 0,
            r.errors@.len() == 0,
    {
        Self::new()
    }
}

} // verus!
