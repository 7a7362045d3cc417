//! Errors of the schema readers.

use vstd::prelude::*;

verus! {

/// Why a schema could not be read. Errors of reading files or parsing
/// documents carry their message.
#[derive(Debug)]
pub enum ParserError {
    Parse(String),
    InvalidSchema(String),
    Io(String),
    Json(String),
    Yaml(String),
    Network(String),
    UnsupportedFeature(String),
    InvalidInput(String),
}

} // verus!
