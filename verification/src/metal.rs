//! The Metal backend: page payloads and the page store, executor decisions,
//! speculative decode, model configuration, resource planning and weight
//! registration.
pub mod mlx;
pub mod payload;
pub mod keyed;
pub mod slot;
pub mod cache_reads;
pub mod kv_ssd;
pub mod executor;
pub mod device;
pub mod rows;
pub mod dflash;
pub mod drafting;
pub mod json;
pub mod config;
pub mod reading;
pub mod resource;
pub mod probing;
pub mod model_source;
pub mod finding;
pub mod loader;
pub mod loading;
pub mod walks;
pub mod weights;
pub mod register;
pub mod diffusion_gemma;
pub mod gemma4;
pub mod deepseek_ocr;
pub mod qwen35;
pub mod lfm2;
pub mod backend;
pub mod draft;
pub mod compiled;
