//! Host-side logic of a multi-backend inference engine: KV page codecs and
//! tiers, paged pools, residency planning, forward schedules and model
//! configuration.
pub mod bytes;
pub mod kvspace;
pub mod hip;
pub mod math;
pub mod text;
pub mod written;
pub mod model;
pub mod models;
pub mod metal;
