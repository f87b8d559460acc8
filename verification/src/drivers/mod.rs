//! Device drivers.

pub mod console;
