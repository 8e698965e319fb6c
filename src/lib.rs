//! Token-aware request orchestration: a request and context model with cache
//! annotations, three-dialect stream decoding, cache-prefix optimisation, a
//! cache tracker, credit tracking, session history and the fallback policy.

pub mod adapter;
pub mod cache;
pub mod commands;
pub mod credit;
pub mod error;
pub mod hashing;
pub mod json;
pub mod metrics;
pub mod optimizer;
pub mod orchestrator;
pub mod request;
pub mod session;
pub mod settings;
pub mod sse;
pub mod strategies;
pub mod text;
pub mod tracker;
pub mod usage;
pub mod wire;
