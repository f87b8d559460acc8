//! The state of a spin lock.

use vstd::prelude::*;

verus! {

/// A spin lock: zero while it is free.
pub struct Spinlock {
    lock: u32,
}

impl View for Spinlock {
    type V = u32;

    closed spec fn view(&self) -> u32 {
        self.lock
    }
}

impl Spinlock {
    /// A free lock.
    pub fn new() -> (r: Self)
        ensures
            r@ == 0,
    {
        Self { lock: 0 }
    }
}

} // verus!
