//! Configuration model: YAML-shaped raw configuration, validation and
//! normalization with deterministic identifiers, the platform requirements
//! contract, the static intent IR, and the canonical configuration hash.

pub mod error;
pub mod raw;
pub mod normalize;
pub mod requirements;
pub mod canonical;
pub mod hash;
pub mod intent;
pub mod pipeline;
pub mod artifact;
pub mod laws;
