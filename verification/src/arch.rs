//! What differs between the two supported targets: the registers that a
//! trampoline saves and the instructions that the patcher writes.

pub mod aarch64;
pub mod x86_64;

use vstd::prelude::*;

verus! {

/// Why a sled or a slot could not be patched.
#[derive(Clone, Copy, Debug, PartialEq, Eq, Structural)]
pub enum PatchError {
    /// The trampoline is too far from the sled for the branch.
    DisplacementOutOfRange,
    /// The trampoline is not a whole number of instructions away.
    Misaligned,
}

/// A signed 32-bit number as the unsigned number with the same bits.
pub open spec fn twos_complement32(d: int) -> u32
    recommends
        -0x8000_0000 <= d < 0x8000_0000,
{
    if d >= 0 {
        d as u32
    } else {
        (d + 0x1_0000_0000) as u32
    }
}

/// The signed number that 32 bits stand for.
pub open spec fn signed32(bits: u32) -> int {
    if bits < 0x8000_0000 {
        bits as int
    } else {
        bits - 0x1_0000_0000
    }
}

/// The region after its first bytes were replaced by `image`.
pub open spec fn patched(region: Seq<u8>, image: Seq<u8>) -> Seq<u8>
    recommends
        image.len() <= region.len(),
{
    image + region.subrange(image.len() as int, region.len() as int)
}

/// Patching a region that was patched with the same image changes
/// nothing.
pub proof fn lemma_patch_idempotent(region: Seq<u8>, image: Seq<u8>)
    requires
        image.len() <= region.len(),
    ensures
        patched(patched(region, image), image) == patched(region, image),
        patched(region, image).len() == region.len(),
{
    assert(patched(patched(region, image), image) =~= patched(region, image));
}

/// A displacement in range is read back from its 32 bits.
pub proof fn lemma_signed32_roundtrip(d: int)
    requires
        -0x8000_0000 <= d < 0x8000_0000,
    ensures
        signed32(twos_complement32(d)) == d,
{
}

/// Writes `image` over the start of `region`: first every byte after
/// the first `head`, then the first `head` bytes, which a running
/// program must see last.
pub fn write_image(region: &mut Vec<u8>, image: &Vec<u8>, head: usize)
    requires
        head <= image@.len() <= old(region)@.len(),
    ensures
        final(region)@ == patched(old(region)@, image@),
{
    let n = image.len();
    let mut k: usize = head;
    while k < n
        invariant
            head <= k <= n,
            n == image@.len(),
            n <= region@.len(),
            region@.len() == old(region)@.len(),
            forall|i: int| head <= i < k ==> region@[i] == image@[i],
            forall|i: int| 0 <= i < head ==> region@[i] == old(region)@[i],
            forall|i: int| k <= i < region@.len() ==> region@[i] == old(region)@[i],
        decreases n - k,
    {
        region.set(k, image[k]);
        k = k + 1;
    }
    let mut h: usize = 0;
    while h < head
        invariant
            h <= head <= n,
            n == image@.len(),
            n <= region@.len(),
            region@.len() == old(region)@.len(),
            forall|i: int| head <= i < n ==> region@[i] == image@[i],
            forall|i: int| 0 <= i < h ==> region@[i] == image@[i],
            forall|i: int| n <= i < region@.len() ==> region@[i] == old(region)@[i],
        decreases head - h,
    {
        region.set(h, image[h]);
        h = h + 1;
    }
    assert(region@ =~= patched(old(region)@, image@));
}

} // verus!
