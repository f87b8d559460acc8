//! Locks.

pub mod spin;
