//! Little-endian integers inside byte buffers.

use vstd::prelude::*;

verus! {

/// The four bytes of `x`, least significant first.
pub open spec fn le32(x: u32) -> Seq<u8> {
    seq![
        (x & 0xff) as u8,
        ((x >> 8u32) & 0xff) as u8,
        ((x >> 16u32) & 0xff) as u8,
        ((x >> 24u32) & 0xff) as u8,
    ]
}

/// The eight bytes of `x`, least significant first.
pub open spec fn le64(x: u64) -> Seq<u8> {
    seq![
        (x & 0xff) as u8,
        ((x >> 8u64) & 0xff) as u8,
        ((x >> 16u64) & 0xff) as u8,
        ((x >> 24u64) & 0xff) as u8,
        ((x >> 32u64) & 0xff) as u8,
        ((x >> 40u64) & 0xff) as u8,
        ((x >> 48u64) & 0xff) as u8,
        ((x >> 56u64) & 0xff) as u8,
    ]
}

/// The integer whose little-endian bytes are the first eight of `s`.
pub open spec fn le64_value(s: Seq<u8>) -> u64
    recommends
        s.len() >= 8,
{
    (s[0] as u64) | ((s[1] as u64) << 8u64) | ((s[2] as u64) << 16u64) | ((s[3] as u64) << 24u64)
        | ((s[4] as u64) << 32u64) | ((s[5] as u64) << 40u64) | ((s[6] as u64) << 48u64) | ((
    s[7] as u64) << 56u64)
}

/// The integer whose little-endian bytes are the first four of `s`.
pub open spec fn le32_value(s: Seq<u8>) -> u32
    recommends
        s.len() >= 4,
{
    (s[0] as u32) | ((s[1] as u32) << 8u32) | ((s[2] as u32) << 16u32) | ((s[3] as u32) << 24u32)
}

/// Decoding the bytes of an integer gives the integer back.
pub proof fn lemma_le64_roundtrip(x: u64)
    ensures
        le64(x).len() == 8,
        le64_value(le64(x)) == x,
{
    let b0 = (x & 0xff) as u8;
    let b1 = ((x >> 8u64) & 0xff) as u8;
    let b2 = ((x >> 16u64) & 0xff) as u8;
    let b3 = ((x >> 24u64) & 0xff) as u8;
    let b4 = ((x >> 32u64) & 0xff) as u8;
    let b5 = ((x >> 40u64) & 0xff) as u8;
    let b6 = ((x >> 48u64) & 0xff) as u8;
    let b7 = ((x >> 56u64) & 0xff) as u8;
    assert((b0 as u64) | ((b1 as u64) << 8u64) | ((b2 as u64) << 16u64) | ((b3 as u64) << 24u64)
        | ((b4 as u64) << 32u64) | ((b5 as u64) << 40u64) | ((b6 as u64) << 48u64) | ((b7 as u64)
        << 56u64) == x) by (bit_vector)
        requires
            b0 == (x & 0xff) as u8,
            b1 == ((x >> 8u64) & 0xff) as u8,
            b2 == ((x >> 16u64) & 0xff) as u8,
            b3 == ((x >> 24u64) & 0xff) as u8,
            b4 == ((x >> 32u64) & 0xff) as u8,
            b5 == ((x >> 40u64) & 0xff) as u8,
            b6 == ((x >> 48u64) & 0xff) as u8,
            b7 == ((x >> 56u64) & 0xff) as u8,
    ;
}

/// Decoding the bytes of an integer gives the integer back.
pub proof fn lemma_le32_roundtrip(x: u32)
    ensures
        le32(x).len() == 4,
        le32_value(le32(x)) == x,
{
    let b0 = (x & 0xff) as u8;
    let b1 = ((x >> 8u32) & 0xff) as u8;
    let b2 = ((x >> 16u32) & 0xff) as u8;
    let b3 = ((x >> 24u32) & 0xff) as u8;
    assert((b0 as u32) | ((b1 as u32) << 8u32) | ((b2 as u32) << 16u32) | ((b3 as u32) << 24u32)
        == x) by (bit_vector)
        requires
            b0 == (x & 0xff) as u8,
            b1 == ((x >> 8u32) & 0xff) as u8,
            b2 == ((x >> 16u32) & 0xff) as u8,
            b3 == ((x >> 24u32) & 0xff) as u8,
    ;
}

/// Whether two byte strings are the same.
pub fn bytes_eq(a: &[u8], b: &[u8]) -> (same: bool)
    ensures
        same == (a@ == b@),
{
    if a.len() != b.len() {
        return false;
    }
    let mut i: usize = 0;
    while i < a.len()
        invariant
            i <= a@.len(),
            a@.len() == b@.len(),
            forall|k: int| 0 <= k < i ==> a@[k] == b@[k],
        decreases a@.len() - i,
    {
        if a[i] != b[i] {
            assert(a@[i as int] != b@[i as int]);
            return false;
        }
        i = i + 1;
    }
    assert(a@ =~= b@);
    true
}

/// Reads the little-endian integer that starts at `at`.
pub fn read_le64(buf: &[u8], at: usize) -> (x: u64)
    requires
        at + 8 <= buf@.len(),
    ensures
        x == le64_value(buf@.subrange(at as int, at + 8)),
{
    let b0: u64 = buf[at] as u64;
    let b1: u64 = buf[at + 1] as u64;
    let b2: u64 = buf[at + 2] as u64;
    let b3: u64 = buf[at + 3] as u64;
    let b4: u64 = buf[at + 4] as u64;
    let b5: u64 = buf[at + 5] as u64;
    let b6: u64 = buf[at + 6] as u64;
    let b7: u64 = buf[at + 7] as u64;
    b0 | (b1 << 8) | (b2 << 16) | (b3 << 24) | (b4 << 32) | (b5 << 40) | (b6 << 48) | (b7 << 56)
}

/// The integer whose little-endian bytes are the first sixteen of `s`.
pub open spec fn le128_value(s: Seq<u8>) -> u128
    recommends
        s.len() >= 16,
{
    (le64_value(s.subrange(0, 8)) as u128) | ((le64_value(s.subrange(8, 16)) as u128) << 64u128)
}

/// Reads the little-endian 128-bit integer that starts at `at`.
pub fn read_le128(buf: &[u8], at: usize) -> (x: u128)
    requires
        at + 16 <= buf@.len(),
    ensures
        x == le128_value(buf@.subrange(at as int, at + 16)),
{
    let total: usize = buf.len();
    assert(at + 16 <= total);
    let low: u128 = read_le64(buf, at) as u128;
    let high: u128 = read_le64(buf, at + 8) as u128;
    proof {
        let block = buf@.subrange(at as int, at + 16);
        assert(block.subrange(0, 8) =~= buf@.subrange(at as int, at + 8));
        assert(block.subrange(8, 16) =~= buf@.subrange(at + 8, at + 16));
    }
    low | (high << 64)
}

/// The byte of `x` that starts at bit `shift`.
fn byte_of_u64(x: u64, shift: u64) -> (b: u8)
    requires
        shift < 64,
    ensures
        b == ((x >> shift) & 0xff) as u8,
{
    let low: u64 = (x >> shift) & 0xff;
    assert(low <= 0xff) by (bit_vector)
        requires
            low == (x >> shift) & 0xff,
    ;
    low as u8
}

/// The byte of `x` that starts at bit `shift`.
fn byte_of_u32(x: u32, shift: u32) -> (b: u8)
    requires
        shift < 32,
    ensures
        b == ((x >> shift) & 0xff) as u8,
{
    let low: u32 = (x >> shift) & 0xff;
    assert(low <= 0xff) by (bit_vector)
        requires
            low == (x >> shift) & 0xff,
    ;
    low as u8
}

/// Appends the eight little-endian bytes of `x`.
pub fn push_le64(out: &mut Vec<u8>, x: u64)
    ensures
        final(out)@ == old(out)@ + le64(x),
{
    assert(x >> 0u64 == x) by (bit_vector);
    out.push(byte_of_u64(x, 0));
    out.push(byte_of_u64(x, 8));
    out.push(byte_of_u64(x, 16));
    out.push(byte_of_u64(x, 24));
    out.push(byte_of_u64(x, 32));
    out.push(byte_of_u64(x, 40));
    out.push(byte_of_u64(x, 48));
    out.push(byte_of_u64(x, 56));
    assert(out@ =~= old(out)@ + le64(x));
}

/// Appends the four little-endian bytes of `x`.
pub fn push_le32(out: &mut Vec<u8>, x: u32)
    ensures
        final(out)@ == old(out)@ + le32(x),
{
    assert(x >> 0u32 == x) by (bit_vector);
    out.push(byte_of_u32(x, 0));
    out.push(byte_of_u32(x, 8));
    out.push(byte_of_u32(x, 16));
    out.push(byte_of_u32(x, 24));
    assert(out@ =~= old(out)@ + le32(x));
}

} // verus!
