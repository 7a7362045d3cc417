//! Verified core of the amalgam schema-to-Nickel toolchain.

pub mod chars;
pub mod compilation_unit;
pub mod daemon;
pub mod debug;
pub mod dependency_graph;
pub mod digraph;
pub mod error;
pub mod fingerprint;
pub mod discovery;
pub mod fqn;
pub mod import_calculator;
pub mod imports;
pub mod incremental;
pub mod ir;
pub mod json;
pub mod k8s_authoritative;
pub mod k8s_imports;
pub mod k8s_types;
pub mod lookup;
pub mod manifest;
pub mod module_registry;
pub mod naming;
pub mod openapi;
pub mod parsing_trace;
pub mod pipeline;
pub mod poll;
pub mod regex_match;
pub mod special_cases;
pub mod text;
pub mod type_system;
pub mod types;
pub mod validation;
pub mod walkers;
