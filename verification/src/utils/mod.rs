//! Data structures shared by the kernel's subsystems.

pub mod linked_list;
