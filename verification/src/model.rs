//! The contract between the engine and a text-generation backend: sessions,
//! constraint markers and the model interface itself, implemented alike by
//! the local engine and by remote backends.

use vstd::prelude::*;

use crate::error::GenerationError;

verus! {

/// Persistent per-conversation state — the token history together with
/// whatever cache the backend keeps — able to round-trip through an opaque
/// byte buffer.
pub trait Session: Sized {
    /// The type of error this session may return during operations.
    type Error;

    /// Serialize the session into bytes, appending to the given buffer.
    fn write_to(&self, into: &mut Vec<u8>) -> Result<(), Self::Error>;

    /// Write the session to a fresh byte buffer.
    fn to_bytes(&self) -> Result<Vec<u8>, Self::Error> {
        let mut bytes = Vec::new();
        self.write_to(&mut bytes)?;
        Ok(bytes)
    }

    /// Load the session back from bytes.
    fn from_bytes(bytes: &[u8]) -> Result<Self, Self::Error>;

    /// The tokens fed to this session so far.
    fn tokens(&self) -> &[u32];

    /// Try to duplicate the session into an independent copy.
    fn try_clone(&self) -> Result<Self, Self::Error>;
}

impl Session for () {
    type Error = GenerationError;

    fn write_to(&self, _into: &mut Vec<u8>) -> (r: Result<(), GenerationError>)
        ensures
            r is Ok,
    {
        Ok(())
    }

    fn to_bytes(&self) -> (r: Result<Vec<u8>, GenerationError>)
        ensures
            r matches Ok(b) && b@.len() == 0,
    {
        Ok(Vec::new())
    }

    fn from_bytes(_bytes: &[u8]) -> (r: Result<(), GenerationError>)
        ensures
            r is Ok,
    {
        Ok(())
    }

    fn tokens(&self) -> (r: &[u32])
        ensures
            r@.len() == 0,
    {
        &[]
    }

    fn try_clone(&self) -> (r: Result<(), GenerationError>)
        ensures
            r is Ok,
    {
        Ok(())
    }
}

/// No constraint oracle is supported for this model.
pub struct NoConstraintsSupported;

/// A type that can constrain the output of a model into a specific output
/// type.
pub trait ModelConstraints {
    /// The type of the output of the constraints.
    type Output;
}

impl ModelConstraints for NoConstraintsSupported {
    type Output = ();
}

/// A sink invoked once per confirmed text chunk; its error aborts the
/// generation request that feeds it.
pub trait TokenSink {
    /// Consume one confirmed chunk.
    fn push_chunk(&mut self, chunk: String) -> Result<(), String>;
}

/// A sink that concatenates every chunk it receives.
pub struct CollectingSink {
    /// Everything received so far, in arrival order.
    pub text: String,
}

impl CollectingSink {
    /// An empty sink.
    pub fn new() -> (s: CollectingSink)
        ensures
            s.text@.len() == 0,
    {
        CollectingSink { text: String::new() }
    }
}

impl TokenSink for CollectingSink {
    fn push_chunk(&mut self, chunk: String) -> (r: Result<(), String>)
        ensures
            r is Ok,
            final(self).text@ == old(self).text@ + chunk@,
    {
        self.text.append(chunk.as_str());
        Ok(())
    }
}

/// A text-generation backend: it owns sessions, primes them with text, and
/// streams generated text — optionally constrained — into a caller-supplied
/// sink.
pub trait Model<Sampler, Constraints: ModelConstraints = NoConstraintsSupported>: Send + Sync +
    'static {
    /// The type of error this model may return during operations.
    type Error;

    /// The type of the session that this model uses.
    type Session: Session;

    /// Create a new session for this model.
    fn new_session(&self) -> Result<Self::Session, Self::Error>;

    /// Advance the session's cache over the given text without sampling,
    /// for context priming.
    fn feed_text(&self, session: &mut Self::Session, text: &str) -> Result<(), Self::Error>;

    /// Generate text for the given prompt, streaming confirmed chunks into
    /// the sink.
    fn stream_text_with_callback<S: TokenSink>(
        &self,
        session: &mut Self::Session,
        text: &str,
        sampler: Sampler,
        on_token: &mut S,
    ) -> Result<(), Self::Error>;

    /// Generate text for the given prompt under the given constraints,
    /// streaming confirmed chunks into the sink.
    fn stream_text_with_callback_and_parser<S: TokenSink>(
        &self,
        session: &mut Self::Session,
        text: &str,
        sampler: Sampler,
        parser: Constraints,
        on_token: &mut S,
    ) -> Result<<Constraints as ModelConstraints>::Output, Self::Error>;
}

} // verus!
