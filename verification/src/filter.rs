//! The filter map: a side-car file that lists which functions to patch
//! and which of them capture arguments.
//!
//! Layout, all integers little-endian as on both supported targets:
//! the 8-byte signature `sf\0filte`, the 8-byte SipHash-2-4 of the
//! image's build-id, the 8-byte mode, then the marks, 8 bytes each, by
//! strictly ascending address.

use crate::bytes::{le64, le64_value, lemma_le64_roundtrip, push_le64, read_le64};
use crate::flags::FuncFlag;
use vstd::prelude::*;

verus! {

/// The signature `sf\0filte` read as a little-endian integer.
pub const SIGN_FILTE: u64 = 0x6574_6c69_6600_6673;

/// The eight bytes with which every filter file starts: `sf\0filte`.
pub open spec fn sign_filte_bytes() -> Seq<u8> {
    seq![0x73u8, 0x66u8, 0x00u8, 0x66u8, 0x69u8, 0x6cu8, 0x74u8, 0x65u8]
}

/// The signature constant and the signature bytes are the same thing.
pub proof fn lemma_sign_filte()
    ensures
        le64(SIGN_FILTE) == sign_filte_bytes(),
{
    let x: u64 = 0x6574_6c69_6600_6673;
    assert((x & 0xff) as u8 == 0x73u8 && ((x >> 8u64) & 0xff) as u8 == 0x66u8 && ((x >> 16u64)
        & 0xff) as u8 == 0x00u8 && ((x >> 24u64) & 0xff) as u8 == 0x66u8 && ((x >> 32u64) & 0xff) as u8
        == 0x69u8 && ((x >> 40u64) & 0xff) as u8 == 0x6cu8 && ((x >> 48u64) & 0xff) as u8 == 0x74u8
        && ((x >> 56u64) & 0xff) as u8 == 0x65u8) by (bit_vector)
        requires
            x == 0x6574_6c69_6600_6673u64,
    ;
    assert(le64(SIGN_FILTE) =~= sign_filte_bytes());
}

/// Size of the header that precedes the marks.
pub const FILTER_HEADER_LEN: usize = 24;

/// Number of low bits of a mark that hold the address.
pub const MARK_ADDR_BITS: u64 = 54;

/// First bit of the flag byte of a mark.
pub const MARK_FLAG_SHIFT: u64 = 56;

/// Mask of the address part of a mark.
pub const MARK_ADDR_MASK: u64 = 0x003f_ffff_ffff_ffff;

/// SipHash-2-4 with both keys zero, of a byte string.
pub uninterp spec fn siphash24(bytes: Seq<u8>) -> u64;

/// The hash under which a filter map names the image it was made for.
///
/// Calls `siphasher::sip::SipHasher24::new().hash(..)`: the hasher keyed
/// with two zeros, applied to the whole build-id at once. The result is a
/// function of the bytes alone; it is named, not computed, here.
#[verifier::external_body]
pub fn build_id_hash(build_id: &[u8]) -> (hash: u64)
    ensures
        hash == siphash24(build_id@),
{
    siphasher::sip::SipHasher24::new().hash(build_id)
}

/// Whether the addresses of the marks never descend.
pub open spec fn marks_sorted(marks: Seq<FilterMark>) -> bool {
    forall|i: int, j: int|
        0 <= i < j < marks.len() ==> (#[trigger] marks[i]).addr_spec() <= (
        #[trigger] marks[j]).addr_spec()
}

/// The marks with the given address, in their order.
pub open spec fn with_addr(marks: Seq<FilterMark>, addr: u64) -> Seq<FilterMark> {
    marks.filter(|m: FilterMark| m.addr_spec() == addr)
}

/// Sorts the marks by address.
///
/// Calls `sort_by_key` of the standard library with the address as key,
/// which is documented as a stable sort: afterwards the slice holds the
/// same marks, none before one of a lower address, and marks of one
/// address in the order that they had.
#[verifier::external_body]
fn sort_marks_by_addr(marks: &mut Vec<FilterMark>)
    ensures
        marks_sorted(final(marks)@),
        final(marks)@.to_multiset() == old(marks)@.to_multiset(),
        forall|addr: u64| #[trigger] with_addr(final(marks)@, addr) == with_addr(old(marks)@, addr),
{
    marks.sort_by_key(|mark| mark.addr());
}

/// The first mark with an address is the first of the marks with that
/// address.
proof fn lemma_first_with_addr(marks: Seq<FilterMark>, at: int)
    requires
        0 <= at < marks.len(),
        forall|j: int| 0 <= j < at ==> (#[trigger] marks[j]).addr_spec() != marks[at].addr_spec(),
    ensures
        with_addr(marks, marks[at].addr_spec()).len() > 0,
        with_addr(marks, marks[at].addr_spec())[0] == marks[at],
{
    let addr = marks[at].addr_spec();
    let pred = |m: FilterMark| m.addr_spec() == addr;
    let before = marks.subrange(0, at);
    let here = seq![marks[at]];
    let after = marks.subrange(at + 1, marks.len() as int);
    assert(marks =~= before + here + after);
    Seq::filter_distributes_over_add(before + here, after, pred);
    Seq::filter_distributes_over_add(before, here, pred);
    assert forall|j: int| 0 <= j < before.len() implies !pred(#[trigger] before[j]) by {
        assert(before[j] == marks[j]);
    }
    before.lemma_all_neg_filter_empty(pred);
    assert(here.filter(pred) =~= here) by {
        reveal_with_fuel(Seq::filter, 2);
        assert(here.drop_last() =~= Seq::<FilterMark>::empty());
    }
    assert(before.filter(pred) =~= Seq::<FilterMark>::empty());
    assert(marks.filter(pred) =~= here + after.filter(pred));
}

/// How a filter map decides which sleds are patched.
#[derive(Clone, Copy, Debug, PartialEq, Eq, Structural)]
pub enum FilterMode {
    /// Every sled is patched; the map only adds flags.
    Mark,
    /// Only functions listed in the map are patched.
    Filter,
}

impl FilterMode {
    /// The mode's number in the file: 0 for MARK, 1 for FILTER.
    pub open spec fn code_spec(self) -> u64 {
        match self {
            FilterMode::Mark => 0u64,
            FilterMode::Filter => 1u64,
        }
    }

    /// The mode's number in the file.
    pub fn code(self) -> (c: u64)
        ensures
            c == self.code_spec(),
    {
        match self {
            FilterMode::Mark => 0,
            FilterMode::Filter => 1,
        }
    }

    /// The mode with the given number, if there is one.
    pub fn from_code(code: u64) -> (m: Option<FilterMode>)
        ensures
            m.is_some() <==> code <= 1,
            m.is_some() ==> m.unwrap().code_spec() == code,
    {
        if code == 0 {
            Some(FilterMode::Mark)
        } else if code == 1 {
            Some(FilterMode::Filter)
        } else {
            None
        }
    }
}

/// One entry of a filter map: a 54-bit function address in the low bits
/// and the flag byte in the high 8.
#[derive(Clone, Copy, Debug, PartialEq, Eq, Structural)]
pub struct FilterMark {
    pub raw: u64,
}

/// The raw mark that packs an address below 2^54 with a flag set.
pub open spec fn mark_raw_spec(addr: u64, flag: FuncFlag) -> u64 {
    addr | ((flag.bits_spec() as u64) << 56u64)
}

impl FilterMark {
    /// The address part of the mark.
    pub open spec fn addr_spec(self) -> u64 {
        self.raw & 0x003f_ffff_ffff_ffffu64
    }

    /// The flags in the high byte of the mark.
    pub open spec fn flag_spec(self) -> FuncFlag {
        FuncFlag::from_bits_spec((self.raw >> 56u64) as u8)
    }

    /// Packs an address and a flag set; `None` exactly when the address
    /// does not fit in 54 bits.
    pub fn new(addr: u64, flag: FuncFlag) -> (r: Option<FilterMark>)
        ensures
            r.is_some() <==> addr < 0x0040_0000_0000_0000u64,
            r.is_some() ==> r.unwrap().raw == mark_raw_spec(addr, flag),
            r.is_some() ==> r.unwrap().addr_spec() == addr && r.unwrap().flag_spec() == flag,
    {
        if addr > MARK_ADDR_MASK {
            return None;
        }
        let bits: u64 = (flag.bits() as u64) << MARK_FLAG_SHIFT;
        proof {
            lemma_mark_roundtrip(addr, flag);
        }
        Some(FilterMark { raw: addr | bits })
    }

    /// The function address.
    pub fn addr(self) -> (a: u64)
        ensures
            a == self.addr_spec(),
            a < 0x0040_0000_0000_0000u64,
    {
        let raw: u64 = self.raw;
        let a: u64 = raw & MARK_ADDR_MASK;
        assert(a < 0x0040_0000_0000_0000u64) by (bit_vector)
            requires
                a == raw & 0x003f_ffff_ffff_ffffu64,
        ;
        a
    }

    /// The flags, with bits that name no flag dropped.
    pub fn flag(self) -> (f: FuncFlag)
        ensures
            f == self.flag_spec(),
    {
        let raw: u64 = self.raw;
        let high: u64 = raw >> MARK_FLAG_SHIFT;
        assert(high <= 0xff) by (bit_vector)
            requires
                high == raw >> 56u64,
        ;
        FuncFlag::from_bits_truncate(high as u8)
    }
}

/// A mark made from an address below 2^54 and a flag set gives both back.
pub proof fn lemma_mark_roundtrip(addr: u64, flag: FuncFlag)
    requires
        addr < 0x0040_0000_0000_0000u64,
    ensures
        (FilterMark { raw: mark_raw_spec(addr, flag) }).addr_spec() == addr,
        (FilterMark { raw: mark_raw_spec(addr, flag) }).flag_spec() == flag,
{
    let b: u64 = flag.bits_spec() as u64;
    let raw: u64 = addr | (b << 56u64);
    assert(raw & 0x003f_ffff_ffff_ffffu64 == addr) by (bit_vector)
        requires
            raw == addr | (b << 56u64),
            addr < 0x0040_0000_0000_0000u64,
            b <= 1,
    ;
    assert((raw >> 56u64) == b) by (bit_vector)
        requires
            raw == addr | (b << 56u64),
            addr < 0x0040_0000_0000_0000u64,
            b <= 1,
    ;
    flag.lemma_bits_roundtrip();
}

/// Why a filter file was rejected.
#[derive(Clone, Copy, Debug, PartialEq, Eq, Structural)]
pub enum FilterError {
    /// Shorter than the header, or the marks do not fill whole entries.
    Malformed,
    /// The first eight bytes are not the signature.
    BadSign { found: u64 },
    /// The map was made for an image with another build-id.
    HashMismatch { image: u64, map: u64 },
    /// The mode is neither MARK nor FILTER.
    BadMode { found: u64 },
    /// The marks are not in strictly ascending order of address.
    Unsorted,
}

/// Whether the addresses of the marks strictly ascend.
pub open spec fn marks_ascend(marks: Seq<FilterMark>) -> bool {
    forall|i: int, j: int|
        0 <= i < j < marks.len() ==> #[trigger] marks[i].addr_spec() < #[trigger] marks[j].addr_spec()
}

/// The marks that a file of well-formed length holds after its header.
pub open spec fn file_marks(buf: Seq<u8>) -> Seq<FilterMark> {
    Seq::new(
        ((buf.len() - 24) / 8) as nat,
        |i: int| FilterMark { raw: le64_value(buf.subrange(24 + 8 * i, 32 + 8 * i)) },
    )
}

/// The first reason, in the order in which a file is checked, for which
/// `buf` is no filter map for the image with `build_id`; `None` when it
/// is one.
pub open spec fn file_fault(buf: Seq<u8>, build_id: Option<Seq<u8>>) -> Option<FilterError> {
    if buf.len() < 24 || (buf.len() - 24) % 8 != 0 {
        Some(FilterError::Malformed)
    } else if le64_value(buf.subrange(0, 8)) != SIGN_FILTE {
        Some(FilterError::BadSign { found: le64_value(buf.subrange(0, 8)) })
    } else if build_id.is_some() && siphash24(build_id.unwrap()) != le64_value(buf.subrange(8, 16)) {
        Some(
            FilterError::HashMismatch {
                image: siphash24(build_id.unwrap()),
                map: le64_value(buf.subrange(8, 16)),
            },
        )
    } else if le64_value(buf.subrange(16, 24)) > 1 {
        Some(FilterError::BadMode { found: le64_value(buf.subrange(16, 24)) })
    } else if !marks_ascend(file_marks(buf)) {
        Some(FilterError::Unsorted)
    } else {
        None
    }
}

/// The bytes of a filter file with the given header and marks.
pub open spec fn file_bytes(hash: u64, mode: FilterMode, marks: Seq<FilterMark>) -> Seq<u8>
    decreases marks.len(),
{
    if marks.len() == 0 {
        le64(SIGN_FILTE) + le64(hash) + le64(mode.code_spec())
    } else {
        file_bytes(hash, mode, marks.drop_last()) + le64(marks.last().raw)
    }
}

/// Where the parts of a filter file lie.
pub proof fn lemma_file_layout(hash: u64, mode: FilterMode, marks: Seq<FilterMark>)
    ensures
        file_bytes(hash, mode, marks).len() == 24 + 8 * marks.len(),
        file_bytes(hash, mode, marks).subrange(0, 8) == le64(SIGN_FILTE),
        file_bytes(hash, mode, marks).subrange(8, 16) == le64(hash),
        file_bytes(hash, mode, marks).subrange(16, 24) == le64(mode.code_spec()),
        forall|i: int|
            0 <= i < marks.len() ==> #[trigger] file_bytes(hash, mode, marks).subrange(
                24 + 8 * i,
                32 + 8 * i,
            ) == le64(marks[i].raw),
    decreases marks.len(),
{
    let buf = file_bytes(hash, mode, marks);
    if marks.len() == 0 {
        assert(buf.subrange(0, 8) =~= le64(SIGN_FILTE));
        assert(buf.subrange(8, 16) =~= le64(hash));
        assert(buf.subrange(16, 24) =~= le64(mode.code_spec()));
    } else {
        let rest = marks.drop_last();
        let prev = file_bytes(hash, mode, rest);
        lemma_file_layout(hash, mode, rest);
        assert(buf == prev + le64(marks.last().raw));
        assert(buf.subrange(0, 8) =~= prev.subrange(0, 8));
        assert(buf.subrange(8, 16) =~= prev.subrange(8, 16));
        assert(buf.subrange(16, 24) =~= prev.subrange(16, 24));
        assert forall|i: int| 0 <= i < marks.len() implies #[trigger] buf.subrange(
            24 + 8 * i,
            32 + 8 * i,
        ) == le64(marks[i].raw) by {
            if i < rest.len() {
                assert(buf.subrange(24 + 8 * i, 32 + 8 * i) =~= prev.subrange(
                    24 + 8 * i,
                    32 + 8 * i,
                ));
                assert(rest[i] == marks[i]);
            } else {
                assert(buf.subrange(24 + 8 * i, 32 + 8 * i) =~= le64(marks.last().raw));
            }
        }
    }
}

/// A filter file made from a header and ascending marks is read back as
/// the same header and marks, by any reader that gives no build-id or
/// the one whose hash the file holds.
pub proof fn lemma_file_roundtrip(
    hash: u64,
    mode: FilterMode,
    marks: Seq<FilterMark>,
    build_id: Option<Seq<u8>>,
)
    requires
        marks_ascend(marks),
        build_id.is_some() ==> siphash24(build_id.unwrap()) == hash,
    ensures
        file_fault(file_bytes(hash, mode, marks), build_id).is_none(),
        le64_value(file_bytes(hash, mode, marks).subrange(8, 16)) == hash,
        le64_value(file_bytes(hash, mode, marks).subrange(16, 24)) == mode.code_spec(),
        file_marks(file_bytes(hash, mode, marks)) == marks,
{
    let buf = file_bytes(hash, mode, marks);
    lemma_file_layout(hash, mode, marks);
    lemma_le64_roundtrip(SIGN_FILTE);
    lemma_le64_roundtrip(hash);
    lemma_le64_roundtrip(mode.code_spec());
    assert(file_marks(buf).len() == marks.len());
    assert forall|i: int| 0 <= i < marks.len() implies file_marks(buf)[i] == marks[i] by {
        assert(buf.subrange(24 + 8 * i, 32 + 8 * i) == le64(marks[i].raw));
        lemma_le64_roundtrip(marks[i].raw);
    }
    assert(file_marks(buf) =~= marks);
}

/// A parsed filter map.
pub struct FilterMap {
    build_id_hash: u64,
    mode: FilterMode,
    map: Vec<FilterMark>,
}

impl FilterMap {
    #[verifier::type_invariant]
    pub closed spec fn inv(self) -> bool {
        marks_ascend(self.map@)
    }

    /// The marks, in file order.
    pub closed spec fn marks(self) -> Seq<FilterMark> {
        self.map@
    }

    /// The mode of the map.
    pub closed spec fn mode_spec(self) -> FilterMode {
        self.mode
    }

    /// The build-id hash recorded in the map.
    pub closed spec fn hash_spec(self) -> u64 {
        self.build_id_hash
    }

    /// Whether some mark of the map has the address `addr`.
    pub open spec fn lists(self, addr: u64) -> bool {
        exists|i: int| 0 <= i < self.marks().len() && #[trigger] self.marks()[i].addr_spec() == addr
    }

    /// Makes a map from marks in any order: they are sorted by address,
    /// and of several marks with one address the first is kept. The map
    /// names the image by the hash of its build-id, or by 0 without one.
    pub fn from_marks(build_id: Option<&[u8]>, mode: FilterMode, marks: Vec<FilterMark>) -> (map:
        FilterMap)
        ensures
            map.hash_spec() == (match build_id {
                Some(id) => siphash24(id@),
                None => 0,
            }),
            map.mode_spec() == mode,
            marks_ascend(map.marks()),
            forall|k: int| 0 <= k < map.marks().len() ==> marks@.contains(#[trigger] map.marks()[k]),
            forall|k: int|
                0 <= k < map.marks().len() ==> #[trigger] map.marks()[k] == with_addr(
                    marks@,
                    map.marks()[k].addr_spec(),
                ).first(),
            forall|i: int| 0 <= i < marks@.len() ==> map.lists((#[trigger] marks@[i]).addr_spec()),
    {
        let hash = match build_id {
            Some(id) => build_id_hash(id),
            None => 0,
        };
        let mut sorted = marks;
        sort_marks_by_addr(&mut sorted);
        proof {
            broadcast use vstd::seq_lib::group_to_multiset_ensures;

            assert forall|x: FilterMark| sorted@.contains(x) <==> marks@.contains(x) by {
                assert(sorted@.to_multiset().count(x) == marks@.to_multiset().count(x));
            }
        }
        let mut out: Vec<FilterMark> = Vec::new();
        let mut i: usize = 0;
        while i < sorted.len()
            invariant
                i <= sorted@.len(),
                marks_sorted(sorted@),
                marks_ascend(out@),
                forall|k: int| 0 <= k < out@.len() ==> sorted@.contains(#[trigger] out@[k]),
                forall|k: int|
                    0 <= k < out@.len() ==> #[trigger] out@[k] == with_addr(
                        sorted@,
                        out@[k].addr_spec(),
                    ).first(),
                i > 0 ==> out@.len() > 0 && out@.last().addr_spec() == sorted@[i - 1].addr_spec(),
                i == 0 ==> out@.len() == 0,
                forall|j: int|
                    0 <= j < i ==> exists|k: int|
                        0 <= k < out@.len() && (#[trigger] out@[k]).addr_spec() == (
                        #[trigger] sorted@[j]).addr_spec(),
            decreases sorted@.len() - i,
        {
            let mark = sorted[i];
            let ghost before = out@;
            let fresh = if i == 0 {
                true
            } else {
                out[out.len() - 1].addr() != mark.addr()
            };
            if fresh {
                proof {
                    if i > 0 {
                        assert(sorted@[i - 1].addr_spec() <= sorted@[i as int].addr_spec());
                    }
                }
                proof {
                    assert forall|j: int| 0 <= j < i implies (#[trigger] sorted@[j]).addr_spec()
                        != sorted@[i as int].addr_spec() by {
                        if j < i - 1 {
                            assert(sorted@[j].addr_spec() <= sorted@[i - 1].addr_spec());
                        }
                    }
                    lemma_first_with_addr(sorted@, i as int);
                }
                out.push(mark);
                proof {
                    assert(sorted@[i as int] == mark);
                    assert forall|k: int| 0 <= k < out@.len() implies #[trigger] out@[k]
                        == with_addr(sorted@, out@[k].addr_spec()).first() by {
                        if k < before.len() {
                            assert(out@[k] == before[k]);
                        }
                    }
                    assert forall|a: int, b: int| 0 <= a < b < out@.len() implies (
                    #[trigger] out@[a]).addr_spec() < (#[trigger] out@[b]).addr_spec() by {
                        if b == before.len() {
                            assert(out@[b] == mark);
                            assert(out@[a] == before[a]);
                            assert(before.last().addr_spec() < mark.addr_spec());
                            if a < before.len() - 1 {
                                assert(before[a].addr_spec() < before.last().addr_spec());
                            }
                        } else {
                            assert(out@[a] == before[a] && out@[b] == before[b]);
                            assert(before[a].addr_spec() < before[b].addr_spec());
                        }
                    }
                    assert forall|k: int| 0 <= k < out@.len() implies sorted@.contains(
                        #[trigger] out@[k],
                    ) by {
                        if k < before.len() {
                            assert(out@[k] == before[k]);
                        }
                    }
                    assert forall|j: int| 0 <= j < i + 1 implies exists|k: int|
                        0 <= k < out@.len() && (#[trigger] out@[k]).addr_spec() == (
                        #[trigger] sorted@[j]).addr_spec() by {
                        if j < i {
                            let k = choose|k: int|
                                0 <= k < before.len() && (#[trigger] before[k]).addr_spec()
                                    == sorted@[j].addr_spec();
                            assert(out@[k] == before[k]);
                        } else {
                            assert(out@[before.len() as int] == mark);
                        }
                    }
                }
            } else {
                proof {
                    assert forall|j: int| 0 <= j < i + 1 implies exists|k: int|
                        0 <= k < out@.len() && (#[trigger] out@[k]).addr_spec() == (
                        #[trigger] sorted@[j]).addr_spec() by {
                        if j == i {
                            assert(out@[out@.len() - 1].addr_spec() == sorted@[j].addr_spec());
                        }
                    }
                }
            }
            i = i + 1;
        }
        let map = FilterMap { build_id_hash: hash, mode, map: out };
        proof {
            assert forall|i: int| 0 <= i < marks@.len() implies map.lists(
                (#[trigger] marks@[i]).addr_spec(),
            ) by {
                let x = marks@[i];
                assert(marks@.contains(x));
                assert(sorted@.contains(x));
                let j = choose|j: int| 0 <= j < sorted@.len() && sorted@[j] == x;
                let k = choose|k: int|
                    0 <= k < out@.len() && (#[trigger] out@[k]).addr_spec()
                        == sorted@[j].addr_spec();
                assert(map.marks()[k].addr_spec() == x.addr_spec());
            }
        }
        map
    }

    /// The bytes of the filter file for this map.
    pub fn to_bytes(&self) -> (bytes: Vec<u8>)
        ensures
            bytes@ == file_bytes(self.hash_spec(), self.mode_spec(), self.marks()),
            marks_ascend(self.marks()),
    {
        proof {
            use_type_invariant(self);
        }
        let mut bytes: Vec<u8> = Vec::new();
        push_le64(&mut bytes, SIGN_FILTE);
        push_le64(&mut bytes, self.build_id_hash);
        push_le64(&mut bytes, self.mode.code());
        let mut i: usize = 0;
        assert(self.map@.subrange(0, 0) =~= Seq::<FilterMark>::empty());
        assert(bytes@ =~= file_bytes(self.build_id_hash, self.mode, self.map@.subrange(0, 0)));
        while i < self.map.len()
            invariant
                i <= self.map@.len(),
                bytes@ == file_bytes(
                    self.build_id_hash,
                    self.mode,
                    self.map@.subrange(0, i as int),
                ),
            decreases self.map@.len() - i,
        {
            push_le64(&mut bytes, self.map[i].raw);
            proof {
                let next = self.map@.subrange(0, i + 1);
                assert(next.drop_last() =~= self.map@.subrange(0, i as int));
                assert(next.last() == self.map@[i as int]);
            }
            i = i + 1;
        }
        assert(self.map@.subrange(0, self.map@.len() as int) =~= self.map@);
        bytes
    }

    /// No two marks of a map have the same address.
    pub proof fn lemma_mark_unique(self, a: FilterMark, b: FilterMark)
        requires
            marks_ascend(self.marks()),
            self.marks().contains(a),
            self.marks().contains(b),
            a.addr_spec() == b.addr_spec(),
        ensures
            a == b,
    {
        let i = choose|i: int| 0 <= i < self.marks().len() && self.marks()[i] == a;
        let j = choose|j: int| 0 <= j < self.marks().len() && self.marks()[j] == b;
        if i < j {
            assert(self.marks()[i].addr_spec() < self.marks()[j].addr_spec());
        } else if j < i {
            assert(self.marks()[j].addr_spec() < self.marks()[i].addr_spec());
        }
    }

    /// Reads a filter file.
    ///
    /// Checks, in this order: the length, the signature, the build-id hash
    /// (only when `build_id` is given), the mode, and that the addresses
    /// strictly ascend. The first check that fails decides the error.
    pub fn parse(buf: &[u8], build_id: Option<&[u8]>) -> (r: Result<FilterMap, FilterError>)
        ensures
            match r {
                Ok(map) => {
                    &&& file_fault(
                        buf@,
                        match build_id {
                            Some(id) => Some(id@),
                            None => None,
                        },
                    ).is_none()
                    &&& map.hash_spec() == le64_value(buf@.subrange(8, 16))
                    &&& map.mode_spec().code_spec() == le64_value(buf@.subrange(16, 24))
                    &&& map.marks() == file_marks(buf@)
                },
                Err(e) => file_fault(
                    buf@,
                    match build_id {
                        Some(id) => Some(id@),
                        None => None,
                    },
                ) == Some(e),
            },
    {
        let len = buf.len();
        if len < FILTER_HEADER_LEN || (len - FILTER_HEADER_LEN) % 8 != 0 {
            return Err(FilterError::Malformed);
        }
        let sign = read_le64(buf, 0);
        if sign != SIGN_FILTE {
            return Err(FilterError::BadSign { found: sign });
        }
        let map_hash = read_le64(buf, 8);
        if let Some(id) = build_id {
            let hash = build_id_hash(id);
            if hash != map_hash {
                return Err(FilterError::HashMismatch { image: hash, map: map_hash });
            }
        }
        let code = read_le64(buf, 16);
        let mode = match FilterMode::from_code(code) {
            Some(mode) => mode,
            None => {
                return Err(FilterError::BadMode { found: code });
            },
        };
        let count: usize = (len - FILTER_HEADER_LEN) / 8;
        let mut map: Vec<FilterMark> = Vec::new();
        let mut i: usize = 0;
        while i < count
            invariant
                len == buf@.len(),
                len >= 24,
                count == (len - 24) / 8,
                (len - 24) % 8 == 0,
                i <= count,
                map@ == file_marks(buf@).subrange(0, i as int),
                marks_ascend(map@),
                le64_value(buf@.subrange(0, 8)) == SIGN_FILTE,
                build_id.is_some() ==> siphash24(build_id.unwrap()@) == le64_value(
                    buf@.subrange(8, 16),
                ),
                le64_value(buf@.subrange(16, 24)) <= 1,
            decreases count - i,
        {
            let mark = FilterMark { raw: read_le64(buf, FILTER_HEADER_LEN + 8 * i) };
            if i > 0 {
                let prev = map[i - 1];
                if prev.addr() >= mark.addr() {
                    proof {
                        let all = file_marks(buf@);
                        assert(all[i - 1] == prev);
                        assert(all[i as int] == mark);
                        assert(all[i - 1].addr_spec() >= all[i as int].addr_spec());
                        assert(!marks_ascend(all));
                    }
                    return Err(FilterError::Unsorted);
                }
            }
            map.push(mark);
            proof {
                let all = file_marks(buf@);
                assert(map@ =~= all.subrange(0, i + 1));
                assert forall|a: int, b: int| 0 <= a < b < map@.len() implies #[trigger] map@[a].addr_spec()
                    < #[trigger] map@[b].addr_spec() by {
                    if b == i as int {
                        if a < i - 1 {
                            assert(map@[a].addr_spec() < map@[i - 1].addr_spec());
                        }
                    }
                }
            }
            i = i + 1;
        }
        proof {
            assert(map@ =~= file_marks(buf@));
        }
        Ok(FilterMap { build_id_hash: map_hash, mode, map })
    }

    /// The mode of the map.
    pub fn mode(&self) -> (m: FilterMode)
        ensures
            m == self.mode_spec(),
            marks_ascend(self.marks()),
    {
        proof {
            use_type_invariant(self);
        }
        self.mode
    }

    /// Looks the address up by binary search: the mark that has it, or
    /// `None` when the map lists no such address.
    pub fn check(&self, addr: u64) -> (r: Option<FilterMark>)
        ensures
            r.is_some() <==> self.lists(addr),
            r.is_some() ==> r.unwrap().addr_spec() == addr && self.marks().contains(r.unwrap()),
            marks_ascend(self.marks()),
    {
        proof {
            use_type_invariant(self);
        }
        let mut lo: usize = 0;
        let mut hi: usize = self.map.len();
        while lo < hi
            invariant
                lo <= hi <= self.map@.len(),
                marks_ascend(self.map@),
                forall|k: int| 0 <= k < lo ==> #[trigger] self.map@[k].addr_spec() < addr,
                forall|k: int| hi <= k < self.map@.len() ==> #[trigger] self.map@[k].addr_spec() > addr,
            decreases hi - lo,
        {
            let mid: usize = lo + (hi - lo) / 2;
            let mark = self.map[mid];
            let a = mark.addr();
            if a == addr {
                assert(self.marks()[mid as int].addr_spec() == addr);
                assert(self.marks()[mid as int] == mark);
                return Some(mark);
            } else if a < addr {
                assert forall|k: int| 0 <= k < mid + 1 implies #[trigger] self.map@[k].addr_spec()
                    < addr by {
                    if k < mid {
                        assert(self.map@[k].addr_spec() < self.map@[mid as int].addr_spec());
                    }
                }
                lo = mid + 1;
            } else {
                assert forall|k: int| mid <= k < self.map@.len() implies #[trigger] self.map@[k].addr_spec()
                    > addr by {
                    if k > mid {
                        assert(self.map@[mid as int].addr_spec() < self.map@[k].addr_spec());
                    }
                }
                hi = mid;
            }
        }
        None
    }
}

} // verus!
