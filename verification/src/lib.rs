//! A streaming text-generation engine: incremental detokenization with
//! stop-phrase detection, token sampling over bounded candidate sets,
//! serializable generation sessions, and a FIFO dispatcher that serializes
//! all inference work for one model, together with builders for
//! OpenAI-compatible remote chat and embedding backends.

pub mod chat;
pub mod decode;
pub mod dispatch;
pub mod embedding;
pub mod error;
pub mod fold;
pub mod model;
pub mod sampler;
pub mod schema;
pub mod session;
pub mod stop;
pub mod token_stream;
pub mod wuerstchen;
