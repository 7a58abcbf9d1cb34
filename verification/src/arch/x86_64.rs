//! x86-64: the saved registers and the patched instructions.
//!
//! A patched sled is 11 bytes: `mov r10d, imm32` with the function
//! identifier, then `call rel32` or `jmp rel32` to the trampoline. The
//! two bytes of the `mov` prefix, `41 BA`, are written last.

use super::{patched, twos_complement32, write_image, PatchError};
use crate::bytes::{
    le128_value, le32, le64, le64_value, push_le32, push_le64, read_le128, read_le64,
};
use vstd::prelude::*;

verus! {

/// Registers saved on entry to an instrumented function.
#[derive(Clone, Copy, Debug, PartialEq, Eq, Structural)]
pub struct Args {
    pub r11: u64,
    pub r10: u64,
    pub r9: u64,
    pub r8: u64,
    pub rcx: u64,
    pub rsi: u64,
    pub rdx: u64,
    pub rax: u64,
    pub rdi: u64,
    pub xmm7: u128,
    pub xmm6: u128,
    pub xmm5: u128,
    pub xmm4: u128,
    pub xmm3: u128,
    pub xmm2: u128,
    pub xmm1: u128,
    pub xmm0: u128,
}

/// Registers saved on exit from an instrumented function, in the order
/// in which the exit trampoline lays them out.
#[derive(Clone, Copy, Debug, PartialEq, Eq, Structural)]
pub struct ReturnValue {
    pub rax: u64,
    pub rdx: u64,
    pub xmm0: u128,
    pub xmm1: u128,
}

/// Size of the block that the entry and tail-call trampolines save.
pub const ARGS_BLOCK_SIZE: usize = 0xc8;

/// Size of the block that the exit trampoline saves.
pub const RETURN_BLOCK_SIZE: usize = 0x30;

/// The quad word at `at` of a saved block.
pub open spec fn quad(block: Seq<u8>, at: int) -> u64 {
    le64_value(block.subrange(at, at + 8))
}

/// The vector register at `at` of a saved block.
pub open spec fn vector(block: Seq<u8>, at: int) -> u128 {
    le128_value(block.subrange(at, at + 16))
}

impl Args {
    /// The registers in the block that the entry trampoline saved: from
    /// the lowest address `r11`, `r10`, `r9`, `r8`, `rcx`, `rsi`, `rdx`,
    /// `rax`, `rdi`, then `xmm7` down to `xmm0`.
    pub open spec fn in_block(block: Seq<u8>) -> Args {
        Args {
            r11: quad(block, 0x00),
            r10: quad(block, 0x08),
            r9: quad(block, 0x10),
            r8: quad(block, 0x18),
            rcx: quad(block, 0x20),
            rsi: quad(block, 0x28),
            rdx: quad(block, 0x30),
            rax: quad(block, 0x38),
            rdi: quad(block, 0x40),
            xmm7: vector(block, 0x48),
            xmm6: vector(block, 0x58),
            xmm5: vector(block, 0x68),
            xmm4: vector(block, 0x78),
            xmm3: vector(block, 0x88),
            xmm2: vector(block, 0x98),
            xmm1: vector(block, 0xa8),
            xmm0: vector(block, 0xb8),
        }
    }

    /// Reads the registers out of the block that the entry trampoline
    /// saved.
    pub fn from_block(block: &[u8]) -> (args: Args)
        requires
            block@.len() >= 0xc8,
        ensures
            args == Args::in_block(block@),
    {
        Args {
            r11: read_le64(block, 0x00),
            r10: read_le64(block, 0x08),
            r9: read_le64(block, 0x10),
            r8: read_le64(block, 0x18),
            rcx: read_le64(block, 0x20),
            rsi: read_le64(block, 0x28),
            rdx: read_le64(block, 0x30),
            rax: read_le64(block, 0x38),
            rdi: read_le64(block, 0x40),
            xmm7: read_le128(block, 0x48),
            xmm6: read_le128(block, 0x58),
            xmm5: read_le128(block, 0x68),
            xmm4: read_le128(block, 0x78),
            xmm3: read_le128(block, 0x88),
            xmm2: read_le128(block, 0x98),
            xmm1: read_le128(block, 0xa8),
            xmm0: read_le128(block, 0xb8),
        }
    }
}

impl ReturnValue {
    /// The registers in the block that the exit trampoline saved: from
    /// the lowest address `rax`, `rdx`, `xmm0`, `xmm1`.
    pub open spec fn in_block(block: Seq<u8>) -> ReturnValue {
        ReturnValue {
            rax: quad(block, 0x00),
            rdx: quad(block, 0x08),
            xmm0: vector(block, 0x10),
            xmm1: vector(block, 0x20),
        }
    }

    /// Reads the registers out of the block that the exit trampoline
    /// saved.
    pub fn from_block(block: &[u8]) -> (rv: ReturnValue)
        requires
            block@.len() >= 0x30,
        ensures
            rv == ReturnValue::in_block(block@),
    {
        ReturnValue {
            rax: read_le64(block, 0x00),
            rdx: read_le64(block, 0x08),
            xmm0: read_le128(block, 0x10),
            xmm1: read_le128(block, 0x20),
        }
    }
}

/// Opcode of `call rel32`.
pub const CALL_OP_CODE: u8 = 0xe8;

/// Opcode of `jmp rel32`.
pub const JMP_OP_CODE: u8 = 0xe9;

/// Number of bytes of a sled that are rewritten.
pub const SLED_PATCH_LEN: usize = 11;

/// Number of leading bytes that are published last.
pub const SLED_HEAD_LEN: usize = 2;

/// Number of bytes of a slot.
pub const SLOT_LEN: usize = 16;

/// `jmp [rip+1]; int3` with its padding, as a little-endian integer.
pub const JMP_QPTR_RIP1: u64 = 0xcc00_0000_0125_ff3e;

/// The distance from the end of the patched sled to the trampoline.
pub open spec fn displacement(address: u64, trampoline: u64) -> int {
    trampoline - (address + 11)
}

/// Whether the displacement fits the 32-bit operand of the branch.
pub open spec fn in_reach(address: u64, trampoline: u64) -> bool {
    -0x8000_0000 <= displacement(address, trampoline) < 0x8000_0000
}

/// The 11 bytes of a patched sled.
pub open spec fn sled_image(opcode: u8, address: u64, func_id: u32, trampoline: u64) -> Seq<u8> {
    seq![0x41u8, 0xbau8] + le32(func_id) + seq![opcode] + le32(
        twos_complement32(displacement(address, trampoline)),
    )
}

/// The 16 bytes of a patched slot: the jump through the quad word that
/// follows it, then the target.
pub open spec fn slot_image(target: u64) -> Seq<u8> {
    le64(0xcc00_0000_0125_ff3eu64) + le64(target)
}

/// Rewrites the sled in `sled`, which stands at `address`, to load
/// `func_id` and branch with `opcode` to `trampoline`.
fn patch_sled(sled: &mut Vec<u8>, opcode: u8, address: u64, func_id: u32, trampoline: u64) -> (r:
    Result<(), PatchError>)
    requires
        old(sled)@.len() >= 11,
    ensures
        r.is_ok() <==> in_reach(address, trampoline),
        r.is_ok() ==> final(sled)@ == patched(
            old(sled)@,
            sled_image(opcode, address, func_id, trampoline),
        ),
        r.is_err() ==> final(sled)@ == old(sled)@ && r == Err::<(), PatchError>(
            PatchError::DisplacementOutOfRange,
        ),
{
    let offset: i128 = trampoline as i128 - (address as i128 + 11);
    if offset < -0x8000_0000 || offset >= 0x8000_0000 {
        return Err(PatchError::DisplacementOutOfRange);
    }
    let bits: u32 = if offset >= 0 {
        offset as u32
    } else {
        (offset + 0x1_0000_0000) as u32
    };
    let mut image: Vec<u8> = Vec::new();
    image.push(0x41);
    image.push(0xba);
    push_le32(&mut image, func_id);
    image.push(opcode);
    push_le32(&mut image, bits);
    assert(image@ =~= sled_image(opcode, address, func_id, trampoline));
    write_image(sled, &image, SLED_HEAD_LEN);
    Ok(())
}

/// Patches an entry sled: `mov r10d, func_id; call trampoline`.
///
/// `sled` holds the bytes of the sled, which stands at `address` in the
/// running image. Fails, leaving the sled as it is, exactly when the
/// trampoline is out of reach of a 32-bit displacement.
pub fn patch_entry(sled: &mut Vec<u8>, address: u64, func_id: u32, trampoline: u64) -> (r: Result<
    (),
    PatchError,
>)
    requires
        old(sled)@.len() >= 11,
    ensures
        r.is_ok() <==> in_reach(address, trampoline),
        r.is_ok() ==> final(sled)@ == patched(
            old(sled)@,
            sled_image(0xe8, address, func_id, trampoline),
        ),
        r.is_err() ==> final(sled)@ == old(sled)@ && r == Err::<(), PatchError>(
            PatchError::DisplacementOutOfRange,
        ),
{
    patch_sled(sled, CALL_OP_CODE, address, func_id, trampoline)
}

/// Patches an exit sled: `mov r10d, func_id; jmp trampoline`. The
/// trampoline then returns to the caller of the instrumented function.
pub fn patch_exit(sled: &mut Vec<u8>, address: u64, func_id: u32, trampoline: u64) -> (r: Result<
    (),
    PatchError,
>)
    requires
        old(sled)@.len() >= 11,
    ensures
        r.is_ok() <==> in_reach(address, trampoline),
        r.is_ok() ==> final(sled)@ == patched(
            old(sled)@,
            sled_image(0xe9, address, func_id, trampoline),
        ),
        r.is_err() ==> final(sled)@ == old(sled)@ && r == Err::<(), PatchError>(
            PatchError::DisplacementOutOfRange,
        ),
{
    patch_sled(sled, JMP_OP_CODE, address, func_id, trampoline)
}

/// Patches a tail-call sled, which is patched as an entry sled is.
pub fn patch_tailcall(sled: &mut Vec<u8>, address: u64, func_id: u32, trampoline: u64) -> (r:
    Result<(), PatchError>)
    requires
        old(sled)@.len() >= 11,
    ensures
        r.is_ok() <==> in_reach(address, trampoline),
        r.is_ok() ==> final(sled)@ == patched(
            old(sled)@,
            sled_image(0xe8, address, func_id, trampoline),
        ),
        r.is_err() ==> final(sled)@ == old(sled)@ && r == Err::<(), PatchError>(
            PatchError::DisplacementOutOfRange,
        ),
{
    patch_entry(sled, address, func_id, trampoline)
}

/// Turns a slot into a jump to `target`: the target goes into the second
/// quad word first, then the jump is published in the first.
pub fn patch_slot(slot: &mut Vec<u8>, target: u64)
    requires
        old(slot)@.len() >= 16,
    ensures
        final(slot)@ == patched(old(slot)@, slot_image(target)),
{
    let mut image: Vec<u8> = Vec::new();
    push_le64(&mut image, JMP_QPTR_RIP1);
    push_le64(&mut image, target);
    write_image(slot, &image, 8);
}

/// What a patched sled holds, read back: the `mov r10d` prefix, the
/// function identifier, the opcode, and the displacement to the
/// trampoline.
pub proof fn lemma_sled_image_reads_back(opcode: u8, address: u64, func_id: u32, trampoline: u64)
    requires
        in_reach(address, trampoline),
    ensures
        sled_image(opcode, address, func_id, trampoline).len() == 11,
        sled_image(opcode, address, func_id, trampoline)[0] == 0x41,
        sled_image(opcode, address, func_id, trampoline)[1] == 0xba,
        crate::bytes::le32_value(sled_image(opcode, address, func_id, trampoline).subrange(2, 6))
            == func_id,
        sled_image(opcode, address, func_id, trampoline)[6] == opcode,
        super::signed32(
            crate::bytes::le32_value(
                sled_image(opcode, address, func_id, trampoline).subrange(7, 11),
            ),
        ) == displacement(address, trampoline),
{
    let image = sled_image(opcode, address, func_id, trampoline);
    let bits = twos_complement32(displacement(address, trampoline));
    assert(image.subrange(2, 6) =~= le32(func_id));
    assert(image.subrange(7, 11) =~= le32(bits));
    crate::bytes::lemma_le32_roundtrip(func_id);
    crate::bytes::lemma_le32_roundtrip(bits);
    super::lemma_signed32_roundtrip(displacement(address, trampoline));
}

} // verus!
