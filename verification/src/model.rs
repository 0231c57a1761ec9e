//! Backend-neutral model arithmetic: the block drafter and the hybrid
//! attention geometry.
pub mod dspark;
pub mod qwen35;
