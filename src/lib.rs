//! Streaming rewrite of WebAssembly modules: strip every custom section of a
//! given name and append a new custom section with a caller-supplied payload.

pub mod leb;
pub mod section;
pub mod rewrite;
pub mod sink;
pub mod bundle;
