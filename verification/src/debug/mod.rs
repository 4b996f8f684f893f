//! The debugger: what a program's debug information says, and what a paused
//! program holds.
pub mod debugger;
pub mod declared;
pub mod dwarf;
pub mod evaluate;
pub mod formatters;
pub mod graph;
pub mod info;
pub mod instrument;
pub mod types;
pub mod variables;
