//! Debug host API exposed to the main thread.
//!
//! Receives debug info from the worker and provides `get_frames` to unwrap the
//! debug stack when paused. The worker saves the stack pointer into the
//! breakpoints buffer before it reports a breakpoint so the host can read it
//! (the host has no access to the SP global).
pub mod frames;
pub mod lines;
pub mod values;
