//! Locating a process, choosing one of its mapped modules, reading the dynamic
//! symbols of that module and patching its live memory one word at a time.

pub mod error;
pub mod memory;
pub mod tracee;
pub mod writer;
pub mod simulated;
pub mod symbols;
pub mod process;
pub mod session;
