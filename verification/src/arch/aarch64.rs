//! AArch64: the saved registers and the patched instructions.
//!
//! A patched sled is eight instruction words:
//!
//! | word | instruction |
//! |---|---|
//! | 0 | `stp x0, x30, [sp, #-16]!` |
//! | 1 | `ldr w17, #12`, which loads word 4 |
//! | 2 | `bl` to the trampoline |
//! | 3 | `b #16`, over the data to word 7 |
//! | 4 | the function identifier |
//! | 5, 6 | `nop` |
//! | 7 | `ldp x0, x30, [sp], #16` |
//!
//! Words 1 to 7 are written first; word 0 is published last.

use super::{patched, write_image, PatchError};
use crate::bytes::{
    le128_value, le32, le64, le64_value, push_le32, push_le64, read_le128, read_le64,
};
use vstd::prelude::*;

verus! {

/// Registers saved by the trampolines, in the order in which they lie on
/// the stack.
#[derive(Clone, Copy, Debug, PartialEq, Eq, Structural)]
pub struct Args {
    pub x8: u64,
    pub x0: u64,
    pub q6: u128,
    pub q7: u128,
    pub q4: u128,
    pub q5: u128,
    pub q2: u128,
    pub q3: u128,
    pub q0: u128,
    pub q1: u128,
    pub x7: u64,
    pub x30: u64,
    pub x5: u64,
    pub x6: u64,
    pub x3: u64,
    pub x4: u64,
    pub x1: u64,
    pub x2: u64,
}

/// On this target the exit trampoline saves the same block.
pub type ReturnValue = Args;

/// Size of the block that the trampolines save.
pub const ARGS_BLOCK_SIZE: usize = 0xd0;

/// The quad word at `at` of a saved block.
pub open spec fn quad(block: Seq<u8>, at: int) -> u64 {
    le64_value(block.subrange(at, at + 8))
}

/// The vector register at `at` of a saved block.
pub open spec fn vector(block: Seq<u8>, at: int) -> u128 {
    le128_value(block.subrange(at, at + 16))
}

impl Args {
    /// The registers in the block that a trampoline saved: from the
    /// lowest address `x8`, `x0`, then `q6`, `q7`, `q4`, `q5`, `q2`,
    /// `q3`, `q0`, `q1`, then `x7`, `x30`, `x5`, `x6`, `x3`, `x4`, `x1`,
    /// `x2`.
    pub open spec fn in_block(block: Seq<u8>) -> Args {
        Args {
            x8: quad(block, 0x00),
            x0: quad(block, 0x08),
            q6: vector(block, 0x10),
            q7: vector(block, 0x20),
            q4: vector(block, 0x30),
            q5: vector(block, 0x40),
            q2: vector(block, 0x50),
            q3: vector(block, 0x60),
            q0: vector(block, 0x70),
            q1: vector(block, 0x80),
            x7: quad(block, 0x90),
            x30: quad(block, 0x98),
            x5: quad(block, 0xa0),
            x6: quad(block, 0xa8),
            x3: quad(block, 0xb0),
            x4: quad(block, 0xb8),
            x1: quad(block, 0xc0),
            x2: quad(block, 0xc8),
        }
    }

    /// Reads the registers out of the block that a trampoline saved.
    pub fn from_block(block: &[u8]) -> (args: Args)
        requires
            block@.len() >= 0xd0,
        ensures
            args == Args::in_block(block@),
    {
        Args {
            x8: read_le64(block, 0x00),
            x0: read_le64(block, 0x08),
            q6: read_le128(block, 0x10),
            q7: read_le128(block, 0x20),
            q4: read_le128(block, 0x30),
            q5: read_le128(block, 0x40),
            q2: read_le128(block, 0x50),
            q3: read_le128(block, 0x60),
            q0: read_le128(block, 0x70),
            q1: read_le128(block, 0x80),
            x7: read_le64(block, 0x90),
            x30: read_le64(block, 0x98),
            x5: read_le64(block, 0xa0),
            x6: read_le64(block, 0xa8),
            x3: read_le64(block, 0xb0),
            x4: read_le64(block, 0xb8),
            x1: read_le64(block, 0xc0),
            x2: read_le64(block, 0xc8),
        }
    }
}

/// `stp x0, x30, [sp, #-16]!`
pub const STP_X0_X30_SP_M16E: u32 = 0xa9bf_7be0;

/// `ldr w17, #12`
pub const LDR_W17_12: u32 = 0x1800_0071;

/// `bl` with a zero displacement.
pub const BL: u32 = 0x9400_0000;

/// `b #16`
pub const B_16: u32 = 0x1400_0004;

/// `nop`
pub const NOP: u32 = 0xd503_201f;

/// `ldp x0, x30, [sp], #16`
pub const LDP_X0_X30_SP_16: u32 = 0xa8c1_7be0;

/// `ldr x16, #8`
pub const LDR_X16_8: u32 = 0x5800_0050;

/// `br x16`
pub const BR_X16: u32 = 0xd61f_0200;

/// Number of bytes of a sled.
pub const SLED_LEN: usize = 32;

/// Number of leading bytes that are published last.
pub const SLED_HEAD_LEN: usize = 4;

/// Number of bytes of a slot.
pub const SLOT_LEN: usize = 16;

/// The distance in bytes from the `bl`, the third word of the sled, to
/// the trampoline.
pub open spec fn displacement(address: u64, trampoline: u64) -> int {
    trampoline - (address + 8)
}

/// Whether the trampoline is a whole number of instructions away.
pub open spec fn aligned(address: u64, trampoline: u64) -> bool {
    displacement(address, trampoline) % 4 == 0
}

/// Whether the `bl` reaches the trampoline: its 26-bit operand counts
/// instructions, which allows 128 MiB either way.
pub open spec fn in_reach(address: u64, trampoline: u64) -> bool {
    -0x0800_0000 <= displacement(address, trampoline) < 0x0800_0000
}

/// The 26-bit operand of the `bl`: the number of instructions to the
/// trampoline, in two's complement.
pub open spec fn bl_operand(address: u64, trampoline: u64) -> u32
    recommends
        aligned(address, trampoline),
        in_reach(address, trampoline),
{
    let words = displacement(address, trampoline) / 4;
    if words >= 0 {
        words as u32
    } else {
        (words + 0x0400_0000) as u32
    }
}

/// The `bl` to the trampoline.
pub open spec fn bl_word(address: u64, trampoline: u64) -> u32 {
    (0x9400_0000 + bl_operand(address, trampoline)) as u32
}

/// The 32 bytes of a patched sled.
pub open spec fn sled_image(address: u64, func_id: u32, trampoline: u64) -> Seq<u8> {
    le32(0xa9bf_7be0u32) + le32(0x1800_0071u32) + le32(bl_word(address, trampoline)) + le32(
        0x1400_0004u32,
    ) + le32(func_id) + le32(0xd503_201fu32) + le32(0xd503_201fu32) + le32(0xa8c1_7be0u32)
}

/// The 16 bytes of a patched slot: `ldr x16, #8; br x16`, then the
/// target.
pub open spec fn slot_image(target: u64) -> Seq<u8> {
    le32(0x5800_0050u32) + le32(0xd61f_0200u32) + le64(target)
}

/// The first of the two faults that the trampoline's place can have.
pub open spec fn patch_fault(address: u64, trampoline: u64) -> Option<PatchError> {
    if !aligned(address, trampoline) {
        Some(PatchError::Misaligned)
    } else if !in_reach(address, trampoline) {
        Some(PatchError::DisplacementOutOfRange)
    } else {
        None
    }
}

/// Rewrites the sled in `sled`, which stands at `address`, to load
/// `func_id` and branch with link to `trampoline`.
pub fn patch_sled(sled: &mut Vec<u8>, address: u64, func_id: u32, trampoline: u64) -> (r: Result<
    (),
    PatchError,
>)
    requires
        old(sled)@.len() >= 32,
    ensures
        match r {
            Ok(()) => patch_fault(address, trampoline).is_none() && final(sled)@ == patched(
                old(sled)@,
                sled_image(address, func_id, trampoline),
            ),
            Err(e) => patch_fault(address, trampoline) == Some(e) && final(sled)@ == old(sled)@,
        },
{
    let offset: i128 = trampoline as i128 - (address as i128 + 8);
    if offset % 4 != 0 {
        return Err(PatchError::Misaligned);
    }
    if offset < -0x0800_0000 || offset >= 0x0800_0000 {
        return Err(PatchError::DisplacementOutOfRange);
    }
    let words: i128 = offset / 4;
    let operand: u32 = if words >= 0 {
        words as u32
    } else {
        (words + 0x0400_0000) as u32
    };
    let mut image: Vec<u8> = Vec::new();
    push_le32(&mut image, STP_X0_X30_SP_M16E);
    push_le32(&mut image, LDR_W17_12);
    push_le32(&mut image, BL + operand);
    push_le32(&mut image, B_16);
    push_le32(&mut image, func_id);
    push_le32(&mut image, NOP);
    push_le32(&mut image, NOP);
    push_le32(&mut image, LDP_X0_X30_SP_16);
    assert(image@ =~= sled_image(address, func_id, trampoline));
    write_image(sled, &image, SLED_HEAD_LEN);
    Ok(())
}

/// Patches an entry sled.
pub fn patch_entry(sled: &mut Vec<u8>, address: u64, func_id: u32, trampoline: u64) -> (r: Result<
    (),
    PatchError,
>)
    requires
        old(sled)@.len() >= 32,
    ensures
        match r {
            Ok(()) => patch_fault(address, trampoline).is_none() && final(sled)@ == patched(
                old(sled)@,
                sled_image(address, func_id, trampoline),
            ),
            Err(e) => patch_fault(address, trampoline) == Some(e) && final(sled)@ == old(sled)@,
        },
{
    patch_sled(sled, address, func_id, trampoline)
}

/// Patches an exit sled.
pub fn patch_exit(sled: &mut Vec<u8>, address: u64, func_id: u32, trampoline: u64) -> (r: Result<
    (),
    PatchError,
>)
    requires
        old(sled)@.len() >= 32,
    ensures
        match r {
            Ok(()) => patch_fault(address, trampoline).is_none() && final(sled)@ == patched(
                old(sled)@,
                sled_image(address, func_id, trampoline),
            ),
            Err(e) => patch_fault(address, trampoline) == Some(e) && final(sled)@ == old(sled)@,
        },
{
    patch_sled(sled, address, func_id, trampoline)
}

/// Patches a tail-call sled.
pub fn patch_tailcall(sled: &mut Vec<u8>, address: u64, func_id: u32, trampoline: u64) -> (r:
    Result<(), PatchError>)
    requires
        old(sled)@.len() >= 32,
    ensures
        match r {
            Ok(()) => patch_fault(address, trampoline).is_none() && final(sled)@ == patched(
                old(sled)@,
                sled_image(address, func_id, trampoline),
            ),
            Err(e) => patch_fault(address, trampoline) == Some(e) && final(sled)@ == old(sled)@,
        },
{
    patch_sled(sled, address, func_id, trampoline)
}

/// Turns a slot into a jump to `target`: the target goes into the second
/// half first, then the two instructions are published in the first.
pub fn patch_slot(slot: &mut Vec<u8>, target: u64)
    requires
        old(slot)@.len() >= 16,
    ensures
        final(slot)@ == patched(old(slot)@, slot_image(target)),
{
    let mut image: Vec<u8> = Vec::new();
    push_le32(&mut image, LDR_X16_8);
    push_le32(&mut image, BR_X16);
    push_le64(&mut image, target);
    assert(image@ =~= slot_image(target));
    write_image(slot, &image, 8);
}

/// What a patched sled holds, read back: `stp x0, x30, [sp, #-16]!`
/// first, the `bl` with the distance to the trampoline third, and the
/// function identifier fifth.
pub proof fn lemma_sled_image_reads_back(address: u64, func_id: u32, trampoline: u64)
    requires
        patch_fault(address, trampoline).is_none(),
    ensures
        sled_image(address, func_id, trampoline).len() == 32,
        crate::bytes::le32_value(sled_image(address, func_id, trampoline).subrange(0, 4))
            == 0xa9bf_7be0u32,
        crate::bytes::le32_value(sled_image(address, func_id, trampoline).subrange(8, 12))
            == bl_word(address, trampoline),
        crate::bytes::le32_value(sled_image(address, func_id, trampoline).subrange(16, 20))
            == func_id,
        0 <= bl_operand(address, trampoline) < 0x0400_0000,
        bl_word(address, trampoline) == 0x9400_0000 + bl_operand(address, trampoline),
        4 * (if bl_operand(address, trampoline) < 0x0200_0000 {
            bl_operand(address, trampoline) as int
        } else {
            bl_operand(address, trampoline) - 0x0400_0000
        }) == displacement(address, trampoline),
{
    let image = sled_image(address, func_id, trampoline);
    assert(image.subrange(0, 4) =~= le32(0xa9bf_7be0u32));
    assert(image.subrange(8, 12) =~= le32(bl_word(address, trampoline)));
    assert(image.subrange(16, 20) =~= le32(func_id));
    crate::bytes::lemma_le32_roundtrip(0xa9bf_7be0u32);
    crate::bytes::lemma_le32_roundtrip(bl_word(address, trampoline));
    crate::bytes::lemma_le32_roundtrip(func_id);
}

} // verus!
