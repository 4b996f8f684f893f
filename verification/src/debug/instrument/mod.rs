//! WASM instrumentation for debugging.
pub mod encoder;
pub mod function;
pub mod locations;
pub mod machine;
pub mod readback;
pub mod whole;
