//! Model-specific registers: their numbers, and the two halves in which
//! the CPU hands their values over.

use vstd::prelude::*;

verus! {

/// Extended feature enables.
pub const MSR_EFER: u32 = 0xC0000080;

/// Segment selectors of the system call.
pub const MSR_STAR: u32 = 0xC0000081;

/// Entry point of the system call.
pub const MSR_LSTAR: u32 = 0xC0000082;

/// Flags that the system call clears.
pub const MSR_SFMASK: u32 = 0xC0000084;

/// The value of a register from the halves that a read gives: `high` above
/// `low`.
pub fn msr_value(low: u32, high: u32) -> (r: u64)
    ensures
        r == ((high as u64) << 32) | (low as u64),
        r & 0xffff_ffff == low,
        r >> 32 == high,
{
    assert((((high as u64) << 32) | (low as u64)) & 0xffff_ffff == low as u64 && (((high as u64)
        << 32) | (low as u64)) >> 32 == high as u64) by (bit_vector);
    (high as u64) << 32 | (low as u64)
}

/// The halves of `val` that a write takes: the low 32 bits, then the high
/// 32 bits.
pub fn msr_halves(val: u64) -> (r: (u32, u32))
    ensures
        r.0 == val & 0xffff_ffff,
        r.1 == val >> 32,
        ((r.1 as u64) << 32) | (r.0 as u64) == val,
{
    assert(val & 0xffff_ffff <= 0xffff_ffff && val >> 32 <= 0xffff_ffff && (((val >> 32) << 32) | (
    val & 0xffff_ffff)) == val) by (bit_vector);
    let low: u32 = (val & 0xffff_ffff) as u32;
    let high: u32 = (val >> 32) as u32;
    (low, high)
}

} // verus!
