//! WebAssembly modules.
pub mod module;
pub mod reader;
