//! The worker that builds and runs programs.
pub mod debuggee;
pub mod execution;
pub mod host_device;
pub mod io;
pub mod sources;
pub mod sysroot;
pub mod tarball;
