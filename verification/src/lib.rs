//! Object storage and garbage collection for an ECMAScript engine, together
//! with a decoder for the code section of WebAssembly modules.
//!
//! Every executable function carries a contract over a mathematical model of
//! its arguments, and every contract is proved.

pub mod ecmascript;
pub mod engine;
pub mod heap;
pub mod wasm;
