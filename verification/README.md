# amalgam

The core of a toolchain that turns Kubernetes CRDs, OpenAPI documents and
related schemas into Nickel packages, written in Verus. Verus checks every
function in `src/`: the library's operations carry contracts that it
proves, and some small helpers are checked only for safety (no overflow,
no panic). The calls into `regex`, `petgraph`, `sha2` and parts of std go
through trusted wrappers, whose contracts are taken as given.

## Layout

- `src/` — the verified library.
  - `types.rs`, `ir.rs`, `fqn.rs`, `naming.rs`: the type representation,
    modules, fully qualified names and naming rules.
  - `walkers.rs`, `openapi.rs`, `validation.rs`, `k8s_types.rs`,
    `k8s_authoritative.rs`, `k8s_imports.rs`: schema walkers that build the
    representation from CRD and OpenAPI schemas.
  - `imports.rs`, `import_calculator.rs`, `module_registry.rs`,
    `compilation_unit.rs`, `dependency_graph.rs`, `digraph.rs`: module
    registration, import paths, and dependency graphs with their orderings
    and cycles.
  - `special_cases.rs`, `regex_match.rs`: the rules for special cases.
  - `pipeline.rs`, `manifest.rs`: the unified pipeline and manifest
    configuration.
  - `fingerprint.rs`, `incremental.rs`: content fingerprints and change
    detection.
  - `debug.rs`, `parsing_trace.rs`, `daemon.rs`, `poll.rs`, `discovery.rs`,
    `type_system.rs`, `json.rs`, `text.rs`, `chars.rs`, `lookup.rs`,
    `error.rs`: supporting records and the text and lookup routines the rest
    is built on.
- `tests/` — tests run against the compiled library.
- `app/` — ordinary Rust around the library: files, JSON/TOML/OpenAPI
  documents through `serde`, `toml` and `openapiv3`, fingerprints on disk,
  and the merging of floating-point bounds.

Each trusted wrapper's contract states only what the called crate's source
or documentation shows; where a result depends on the clock, nothing is
promised of it.
