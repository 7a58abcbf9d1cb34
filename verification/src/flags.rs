//! Function flags and the packed 32-bit function identifier.

use vstd::prelude::*;

verus! {

/// Flags attached to an instrumented function. The only defined flag is
/// `log`: capture arguments on entry and the return value on exit.
#[derive(Clone, Copy, Debug, PartialEq, Eq, Structural)]
pub struct FuncFlag {
    pub log: bool,
}

/// Bit of the LOG flag inside a flag byte.
pub const FLAG_LOG_BIT: u8 = 1;

impl FuncFlag {
    /// The flag byte of this set: bit 0 is LOG, every other bit is clear.
    pub open spec fn bits_spec(self) -> u8 {
        if self.log {
            1u8
        } else {
            0u8
        }
    }

    /// The flags encoded in a byte; bits other than LOG are ignored.
    pub open spec fn from_bits_spec(bits: u8) -> FuncFlag {
        FuncFlag { log: bits & 1u8 == 1u8 }
    }

    /// The empty flag set.
    pub fn empty() -> (f: FuncFlag)
        ensures
            f == (FuncFlag { log: false }),
    {
        FuncFlag { log: false }
    }

    /// The flag set that holds LOG alone.
    pub fn log() -> (f: FuncFlag)
        ensures
            f == (FuncFlag { log: true }),
    {
        FuncFlag { log: true }
    }

    /// The flag byte of this set.
    pub fn bits(self) -> (b: u8)
        ensures
            b == self.bits_spec(),
            b <= 1,
    {
        if self.log {
            FLAG_LOG_BIT
        } else {
            0
        }
    }

    /// Decodes a flag byte, dropping every bit that names no flag.
    pub fn from_bits_truncate(bits: u8) -> (f: FuncFlag)
        ensures
            f == FuncFlag::from_bits_spec(bits),
    {
        FuncFlag { log: bits & FLAG_LOG_BIT == FLAG_LOG_BIT }
    }

    /// Whether every flag of `other` is also in `self`.
    pub fn contains(self, other: FuncFlag) -> (b: bool)
        ensures
            b == (other.log ==> self.log),
    {
        !other.log || self.log
    }

    /// The flags that are in `self` or in `other`.
    pub fn union(self, other: FuncFlag) -> (f: FuncFlag)
        ensures
            f == (FuncFlag { log: self.log || other.log }),
    {
        FuncFlag { log: self.log || other.log }
    }

    /// Decoding the byte of a flag set gives the flag set back.
    pub proof fn lemma_bits_roundtrip(self)
        ensures
            FuncFlag::from_bits_spec(self.bits_spec()) == self,
    {
        assert(1u8 & 1u8 == 1u8) by (bit_vector);
        assert(0u8 & 1u8 == 0u8) by (bit_vector);
    }
}

/// Number of low bits of a function identifier that hold the index.
pub const FUNC_ID_INDEX_BITS: u32 = 24;

/// Mask of the index part of a function identifier.
pub const FUNC_ID_INDEX_MASK: u32 = 0x00ff_ffff;

/// The raw identifier that packs a 0-based sled index with a flag set:
/// the index plus one in the low 24 bits, the flag byte in the high 8.
pub open spec fn pack_spec(idx: u32, flag: FuncFlag) -> u32
    recommends
        idx < 0x00ff_ffffu32,
{
    ((flag.bits_spec() as u32) << 24u32) | ((idx + 1) as u32)
}

/// The 0-based sled index held in a raw identifier whose low 24 bits are
/// not zero.
pub open spec fn unpack_index_spec(raw: u32) -> u32
    recommends
        raw & 0x00ff_ffffu32 != 0,
{
    ((raw & 0x00ff_ffffu32) - 1) as u32
}

/// The flag set held in the high byte of a raw identifier.
pub open spec fn unpack_flag_spec(raw: u32) -> FuncFlag {
    FuncFlag::from_bits_spec((raw >> 24u32) as u8)
}

/// A function identifier: a 24-bit 1-based index (0 is reserved for
/// "unset" and never stored here) and 8 bits of flags.
#[derive(Clone, Copy, Debug)]
pub struct FuncId {
    raw: u32,
}

impl FuncId {
    #[verifier::type_invariant]
    pub closed spec fn inv(self) -> bool {
        self.raw & 0x00ff_ffffu32 != 0
    }

    /// The raw 32-bit value, as it travels in the scratch register.
    pub closed spec fn raw_spec(self) -> u32 {
        self.raw
    }

    /// The raw 32-bit value.
    pub fn raw(self) -> (r: u32)
        ensures
            r == self.raw_spec(),
            r & 0x00ff_ffffu32 != 0,
    {
        proof {
            use_type_invariant(&self);
        }
        self.raw
    }

    /// Wraps a raw value; `None` exactly when its index part is the
    /// reserved value 0.
    pub fn from_raw(raw: u32) -> (r: Option<FuncId>)
        ensures
            r.is_some() <==> raw & 0x00ff_ffffu32 != 0,
            r.is_some() ==> r.unwrap().raw_spec() == raw,
    {
        if raw & FUNC_ID_INDEX_MASK != 0 {
            Some(FuncId { raw })
        } else {
            None
        }
    }

    /// Packs a 0-based sled index and a flag set. `None` exactly when the
    /// 1-based index does not fit in 24 bits.
    pub fn pack(idx: u32, flag: FuncFlag) -> (r: Option<FuncId>)
        ensures
            r.is_some() <==> idx < 0x00ff_ffffu32,
            r.is_some() ==> r.unwrap().raw_spec() == pack_spec(idx, flag),
    {
        if idx >= FUNC_ID_INDEX_MASK {
            return None;
        }
        let func_id: u32 = idx + 1;
        let flag_bits: u32 = (flag.bits() as u32) << FUNC_ID_INDEX_BITS;
        let raw: u32 = flag_bits | func_id;
        proof {
            let b: u32 = flag.bits_spec() as u32;
            assert(b <= 1);
            assert(0 < func_id <= 0x00ff_ffffu32);
            assert(((b << 24u32) | func_id) & 0x00ff_ffffu32 != 0) by (bit_vector)
                requires
                    b <= 1,
                    0 < func_id <= 0x00ff_ffffu32,
            ;
        }
        Some(FuncId { raw })
    }

    /// Splits the identifier into the 0-based sled index and the flags.
    pub fn unpack(self) -> (r: (u32, FuncFlag))
        ensures
            r.0 == unpack_index_spec(self.raw_spec()),
            r.1 == unpack_flag_spec(self.raw_spec()),
            r.0 < 0x00ff_ffffu32,
    {
        proof {
            use_type_invariant(&self);
        }
        let raw: u32 = self.raw;
        let low: u32 = raw & FUNC_ID_INDEX_MASK;
        assert(low <= 0x00ff_ffffu32) by (bit_vector)
            requires
                low == raw & 0x00ff_ffffu32,
        ;
        let high: u32 = raw >> FUNC_ID_INDEX_BITS;
        assert(high <= 0xffu32) by (bit_vector)
            requires
                high == raw >> 24u32,
        ;
        let flag = FuncFlag::from_bits_truncate(high as u8);
        (low - 1, flag)
    }
}

/// Packing an index that fits and a flag set, then unpacking, gives both
/// back.
pub proof fn lemma_pack_unpack(idx: u32, flag: FuncFlag)
    requires
        idx < 0x00ff_ffffu32,
    ensures
        pack_spec(idx, flag) & 0x00ff_ffffu32 != 0,
        unpack_index_spec(pack_spec(idx, flag)) == idx,
        unpack_flag_spec(pack_spec(idx, flag)) == flag,
{
    let b: u32 = flag.bits_spec() as u32;
    let n: u32 = (idx + 1) as u32;
    let raw: u32 = (b << 24u32) | n;
    assert(raw & 0x00ff_ffffu32 == n) by (bit_vector)
        requires
            raw == (b << 24u32) | n,
            b <= 1,
            n <= 0x00ff_ffffu32,
    ;
    assert((raw >> 24u32) == b) by (bit_vector)
        requires
            raw == (b << 24u32) | n,
            b <= 1,
            n <= 0x00ff_ffffu32,
    ;
    flag.lemma_bits_roundtrip();
}

} // verus!
