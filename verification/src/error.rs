//! Errors arising while serving one generation request.

use vstd::prelude::*;

verus! {

/// Why a generation request ended abnormally. Every error is fatal for its
/// own request only: the dispatcher goes on serving the queue.
#[derive(Debug, PartialEq, Eq)]
pub enum GenerationError {
    /// The prompt could not be tokenized.
    EncodingError(String),
    /// The numeric backend failed during a forward pass.
    ForwardPassError(String),
    /// Constrained sampling found no acceptable token at some step.
    NoValidTokens,
    /// The caller's chunk-consuming sink failed.
    SinkError(String),
    /// A serialized session was malformed or written by an incompatible
    /// configuration.
    CorruptSession,
    /// A request was submitted after the dispatcher's queue was closed.
    ModelStopped,
}

} // verus!
