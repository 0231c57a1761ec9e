//! Backend-neutral KV host logic: the prefix-page content codec with its
//! capture lifecycle, and the whole-slot and sidecar tier.
pub mod dsv4;
pub mod tier;
