//! The object model: handles, values, payloads and the operations that every
//! object answers.

pub mod chain;
pub mod embedder_object;
pub mod execution;
pub mod methods;
pub mod ordinary;
pub mod properties;
pub mod slots;
pub mod types;
