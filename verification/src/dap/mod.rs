//! The debug adapter.
pub mod adapter;
pub mod json;
pub mod session;
pub mod types;
