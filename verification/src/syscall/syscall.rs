//! What the registers of the system call are set to.

use vstd::prelude::*;
use crate::asms::gdt::{GDT_KERNEL_CODE, GDT_KERNEL_DATA};
use crate::asms::msr::{MSR_EFER, MSR_SFMASK, MSR_STAR};

verus! {

/// The bit of the extended feature register that enables the system call.
pub const EFER_SYSCALL_ENABLE: u64 = 0x1;

/// The interrupt flag, which is cleared while a system call runs.
pub const SFMASK_INTERRUPTS: u64 = 0x200;

/// The selectors of the system call: the kernel's data selector at bit 48
/// and its code selector at bit 32.
pub open spec fn star_selectors() -> u64 {
    (GDT_KERNEL_DATA << 48) | (GDT_KERNEL_CODE << 32)
}

/// The registers to write, in this order, to set the system call up, each
/// with its value: the extended feature register as it was read, `efer`,
/// with the system call enabled; the selectors of the system call; and the
/// mask that disables interrupts while a system call runs.
pub fn syscall_init(efer: u64) -> (r: [(u32, u64); 3])
    ensures
        r@[0] == (MSR_EFER, efer | EFER_SYSCALL_ENABLE),
        r@[1] == (MSR_STAR, star_selectors()),
        r@[1].1 == 0x0010_0008_0000_0000,
        r@[2] == (MSR_SFMASK, SFMASK_INTERRUPTS),
{
    assert((0x10u64 << 48) | (0x08u64 << 32) == 0x0010_0008_0000_0000) by (bit_vector);
    [
        (MSR_EFER, efer | 0x1),
        (MSR_STAR, GDT_KERNEL_DATA << 48 | GDT_KERNEL_CODE << 32),
        (MSR_SFMASK, 0x200),
    ]
}

} // verus!
