//! Language-model inference as verified graph construction: arrays are deferred computations
//! with known shapes, and every layer, cache, sampler and loader states exactly which
//! computation it builds.

pub mod array;
pub mod cache;
pub mod error;
pub mod fast;
pub mod index;
pub mod laws;
pub mod meaning;
pub mod models;
pub mod nn;
pub mod ops;
pub mod params;
pub mod scalar;
pub mod shape;
pub mod text;
pub mod utils;
pub mod weights;
