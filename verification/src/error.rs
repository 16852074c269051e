//! Errors reported by the library.
use vstd::prelude::*;

verus! {

/// Failure of a library operation.
#[derive(Debug)]
pub enum GuideError {
    /// A document could not be processed.
    PdfProcessing(String),
    /// A response or stored value could not be interpreted.
    Internal(String),
    /// A requested item does not exist.
    NotFound(String),
    /// A language-model call failed.
    Llm(String),
    /// A request names something that is not there.
    InvalidInput(String),
}

} // verus!
