//! Encoders for the descriptor tables and registers that the CPU reads.

pub mod gdt;
pub mod idt;
pub mod msr;
