//! Decoding of WebAssembly binary modules from bytes held in memory.

pub mod code_section;
pub mod error;
pub mod reader;
pub mod varint;
