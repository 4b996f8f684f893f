//! A debugger for WebAssembly programs: DWARF reading, instrumentation planning,
//! variable formatting, the debug adapter protocol and the worker's pause protocol.
//!
//! The crate holds the decisions. Browser glue (shared memory, messages, fetches,
//! the encoder) lives beside it and hands plain values in and out.
pub mod breakpoints;
pub mod bytes;
pub mod dap;
pub mod debug;
pub mod error;
pub mod host;
pub mod path;
pub mod seqs;
pub mod text;
pub mod types;
pub mod wasm;
pub mod worker;
