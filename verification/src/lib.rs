//! An ONNX embedding sidecar: configuration, batching, caching, request
//! handling and worker coordination, each with a verified contract.
use vstd::prelude::*;

pub mod api;
pub mod api_health;
pub mod api_rerank;
pub mod api_splade;
pub mod arena;
pub mod batcher;
pub mod cache;
pub mod cache_flow;
pub mod charsmap;
pub mod config;
pub mod embed_model;
pub mod encoding;
pub mod env;
pub mod evictable_pool;
pub mod ipc;
pub mod metrics;
pub mod mlock;
pub mod model;
pub mod order;
pub mod pass;
pub mod reply;
pub mod session;
pub mod soundness;
pub mod standalone;
pub mod startup;
pub mod text;
pub mod tokenizer;
pub mod warmup;
pub mod worker;

verus! {

} // verus!
