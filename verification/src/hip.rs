//! HIP lane: per-slot KV shapes and paging, weight residency planning, and
//! the forward schedule of a token.
pub mod config;
pub mod kv_pool;
pub mod loader;
pub mod model;
pub mod forward;
pub mod dataflow;
pub mod loading;
pub mod load;
pub mod executor;
