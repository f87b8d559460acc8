//! System calls.

pub mod syscall;
