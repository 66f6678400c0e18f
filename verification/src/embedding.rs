//! The OpenAI-compatible remote embedding backend: configuration, builder
//! and the validation of batched responses.
//!
//! The endpoint returns one embedding per input string, each tagged with the
//! index of the input it belongs to; after sorting by index, a response is
//! valid exactly when those indices are `0, 1, 2, …` with nothing missing.

use vstd::prelude::*;

use crate::chat::{NoAPIKeyError, OpenAICompatibleClient};

verus! {

/// An embedding model served by an OpenAI-compatible endpoint.
#[derive(Debug)]
pub struct OpenAICompatibleEmbeddingModel {
    /// The name of the model addressed by every request.
    pub model: String,
    /// The endpoint configuration.
    pub client: OpenAICompatibleClient,
}

/// An error from the remote embedding backend.
#[derive(Debug)]
pub enum OpenAICompatibleEmbeddingModelError {
    /// The API key could not be resolved.
    APIKeyError(NoAPIKeyError),
    /// The request to the endpoint failed, with this description.
    ReqwestError(String),
    /// The response did not contain embeddings for all input strings.
    InvalidResponse,
}

/// A builder for an OpenAI-compatible embedding model; the const parameter
/// records whether a model name has been chosen yet.
#[derive(Debug)]
pub struct OpenAICompatibleEmbeddingModelBuilder<const WITH_NAME: bool> {
    /// The chosen model name, if any.
    pub model: Option<String>,
    /// The endpoint configuration.
    pub client: OpenAICompatibleClient,
}

impl OpenAICompatibleEmbeddingModelBuilder<false> {
    /// Creates a new builder.
    pub fn new() -> (b: OpenAICompatibleEmbeddingModelBuilder<false>)
        ensures
            b.model is None,
            b.client.api_key is None,
            b.client.base_url@ == "https://api.openai.com/v1"@,
    {
        OpenAICompatibleEmbeddingModelBuilder {
            model: Option::None,
            client: OpenAICompatibleClient::new(),
        }
    }
}

impl<const WITH_NAME: bool> OpenAICompatibleEmbeddingModelBuilder<WITH_NAME> {
    /// Set the name of the model to use.
    pub fn with_model(self, model: &str) -> (b: OpenAICompatibleEmbeddingModelBuilder<true>)
        ensures
            b.model matches Option::Some(m) && m@ == model@,
            b.client.base_url@ == self.client.base_url@,
            b.client.api_key == self.client.api_key,
    {
        OpenAICompatibleEmbeddingModelBuilder {
            model: Option::Some(model.to_owned()),
            client: self.client,
        }
    }

    /// Set the model to text-embedding-3-small, the smallest available
    /// embedding model.
    pub fn with_text_embedding_3_small(self) -> (b: OpenAICompatibleEmbeddingModelBuilder<true>)
        ensures
            b.model matches Option::Some(m) && m@ == "text-embedding-3-small"@,
            b.client.base_url@ == self.client.base_url@,
            b.client.api_key == self.client.api_key,
    {
        self.with_model("text-embedding-3-small")
    }

    /// Set the model to text-embedding-3-large, the strongest available
    /// embedding model.
    pub fn with_text_embedding_3_large(self) -> (b: OpenAICompatibleEmbeddingModelBuilder<true>)
        ensures
            b.model matches Option::Some(m) && m@ == "text-embedding-3-large"@,
            b.client.base_url@ == self.client.base_url@,
            b.client.api_key == self.client.api_key,
    {
        self.with_model("text-embedding-3-large")
    }

    /// Set the client used to make requests to the endpoint.
    pub fn with_client(self, client: OpenAICompatibleClient) -> (b:
        OpenAICompatibleEmbeddingModelBuilder<WITH_NAME>)
        ensures
            b.model == self.model,
            b.client.base_url@ == client.base_url@,
            b.client.api_key == client.api_key,
    {
        OpenAICompatibleEmbeddingModelBuilder { model: self.model, client }
    }
}

impl OpenAICompatibleEmbeddingModelBuilder<true> {
    /// Build the model. A builder that carries a name always succeeds; one
    /// assembled without a name falls back to the smallest model.
    pub fn build(self) -> (m: OpenAICompatibleEmbeddingModel)
        ensures
            (match self.model {
                Option::Some(name) => m.model@ == name@,
                Option::None => m.model@ == "text-embedding-3-small"@,
            }),
            m.client.base_url@ == self.client.base_url@,
            m.client.api_key == self.client.api_key,
    {
        match self.model {
            Option::Some(name) => OpenAICompatibleEmbeddingModel {
                model: name,
                client: self.client,
            },
            Option::None => OpenAICompatibleEmbeddingModel {
                model: "text-embedding-3-small".to_owned(),
                client: self.client,
            },
        }
    }
}

/// Whether a batched response covers every input: after sorting by index,
/// the indices must be exactly `0, 1, 2, …`.
pub fn embedding_indices_complete(indices: &Vec<usize>) -> (r: bool)
    ensures
        r == (forall|i: int| 0 <= i < indices@.len() ==> indices@[i] == i),
{
    let n = indices.len();
    let mut i: usize = 0;
    while i < n
        invariant
            n == indices@.len(),
            i <= n,
            forall|j: int| 0 <= j < i ==> indices@[j] == j,
        decreases n - i,
    {
        if indices[i] != i {
            return false;
        }
        i += 1;
    }
    true
}

} // verus!
