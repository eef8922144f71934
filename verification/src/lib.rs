//! VOX: multilingual voice/text question answering over retrieved evidence.

use vstd::prelude::*;

pub mod analysis;
pub mod api;
pub mod bench;
pub mod chunk;
pub mod corpus;
pub mod embed;
pub mod engine;
pub mod fusion;
pub mod generation;
pub mod grounding;
pub mod guard;
pub mod ingest;
pub mod numfmt;
pub mod numparse;
pub mod oreo_config;
pub mod pipeline;
pub mod preprocess;
pub mod rag;
pub mod rerank;
pub mod retrieval;
pub mod settings;
pub mod language;
pub mod llm;
pub mod text;
pub mod vector_store;
pub mod types;

verus! {

} // verus!
