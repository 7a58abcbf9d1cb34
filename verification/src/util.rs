//! Small helpers of the tracer.

use vstd::prelude::*;

verus! {

/// Whether a 64-bit register value is left out of a record.
pub fn u64_is_zero(n: &u64) -> (b: bool)
    ensures
        b == (*n == 0),
{
    *n == 0
}

/// Whether a 128-bit register value is left out of a record.
pub fn u128_is_zero(n: &u128) -> (b: bool)
    ensures
        b == (*n == 0),
{
    *n == 0
}

/// What is known of a text region after the attempt to make it writable:
/// where it is, and whether the attempt succeeded. When the region is
/// given up, it is made read-and-execute again only if it was unlocked.
#[derive(Clone, Copy, Debug, PartialEq, Eq, Structural)]
pub struct MProtect {
    pub flag: bool,
    pub addr: usize,
    pub size: usize,
}

impl MProtect {
    /// Notes the outcome of unlocking `size` bytes at `addr`.
    pub fn unlock(addr: usize, size: usize, succeeded: bool) -> (guard: MProtect)
        ensures
            guard == (MProtect { flag: succeeded, addr, size }),
    {
        MProtect { flag: succeeded, addr, size }
    }

    /// The region to lock again when the guard is given up: the whole
    /// region if unlocking succeeded, nothing if it failed.
    pub fn relock(&self) -> (region: Option<(usize, usize)>)
        ensures
            region == if self.flag {
                Some((self.addr, self.size))
            } else {
                None
            },
    {
        if self.flag {
            Some((self.addr, self.size))
        } else {
            None
        }
    }
}

} // verus!
