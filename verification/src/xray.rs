//! The instrumentation map: the table of sled descriptors that the
//! compiler leaves in the section `xray_instr_map`.
//!
//! A descriptor is 32 bytes: the offset of the sled and the offset of the
//! function, each relative to the place of its own field and 8 bytes
//! wide, then the kind, the always-instrument flag and the version, one
//! byte each, then padding. Integers are little-endian, as on both
//! supported targets.

use crate::bytes::{le64_value, read_le64};
use vstd::prelude::*;

verus! {

/// Size of one descriptor.
pub const XRAY_ENTRY_SIZE: usize = 32;

/// The only descriptor version that is read.
pub const XRAY_VERSION: u8 = 2;

/// Sled kind of a function entry.
pub const SLED_ENTRY: u8 = 0;

/// Sled kind of a function exit.
pub const SLED_EXIT: u8 = 1;

/// Sled kind of a tail call.
pub const SLED_TAIL_CALL: u8 = 2;

/// One sled descriptor.
#[derive(Clone, Copy, Debug, PartialEq, Eq, Structural)]
pub struct XRayFunctionEntry {
    pub address: u64,
    pub function: u64,
    pub kind: u8,
    pub always_instrument: u8,
    pub version: u8,
}

/// The descriptor held in the 32 bytes that start at `at`.
pub open spec fn entry_at(buf: Seq<u8>, at: int) -> XRayFunctionEntry {
    XRayFunctionEntry {
        address: le64_value(buf.subrange(at, at + 8)),
        function: le64_value(buf.subrange(at + 8, at + 16)),
        kind: buf[at + 16],
        always_instrument: buf[at + 17],
        version: buf[at + 18],
    }
}

/// The descriptors held in a section of whole descriptors.
pub open spec fn section_entries(buf: Seq<u8>) -> Seq<XRayFunctionEntry> {
    Seq::new((buf.len() / 32) as nat, |i: int| entry_at(buf, 32 * i))
}

/// The descriptor table of an image.
pub struct XRayInstrMap(pub Vec<XRayFunctionEntry>);

/// One descriptor together with its index in the table and the address
/// of the section that holds the table.
#[derive(Clone, Copy, Debug, PartialEq, Eq, Structural)]
pub struct XRayEntry {
    pub idx: u32,
    pub section_offset: u64,
    pub entry: XRayFunctionEntry,
}

impl XRayEntry {
    /// Address of the descriptor itself: section plus 32 times the index.
    /// Offsets in a descriptor are relative and may stand for negative
    /// numbers, so every sum here is taken modulo 2^64.
    pub open spec fn entry_offset_spec(self) -> u64 {
        self.section_offset.wrapping_add((32 * self.idx) as u64)
    }

    /// Address of the sled.
    pub open spec fn address_spec(self) -> u64 {
        self.entry_offset_spec().wrapping_add(self.entry.address)
    }

    /// Address of the function. The offset is relative to its own field,
    /// which is the second 8-byte word of the descriptor.
    pub open spec fn function_spec(self) -> u64 {
        self.entry_offset_spec().wrapping_add(self.entry.function).wrapping_add(8)
    }

    /// The 0-based index of the descriptor.
    pub fn id(&self) -> (id: u32)
        ensures
            id == self.idx,
    {
        self.idx
    }

    /// The sled kind: 0 entry, 1 exit, 2 tail call.
    pub fn kind(&self) -> (kind: u8)
        ensures
            kind == self.entry.kind,
    {
        self.entry.kind
    }

    fn entry_offset(&self) -> (offset: u64)
        ensures
            offset == self.entry_offset_spec(),
    {
        let scaled: u64 = (self.idx as u64) * 32;
        self.section_offset.wrapping_add(scaled)
    }

    /// Address of the sled, before the load base is added.
    pub fn address(&self) -> (address: u64)
        ensures
            address == self.address_spec(),
    {
        self.entry_offset().wrapping_add(self.entry.address)
    }

    /// Address of the function, before the load base is added.
    pub fn function(&self) -> (address: u64)
        ensures
            address == self.function_spec(),
    {
        self.entry_offset().wrapping_add(self.entry.function).wrapping_add(8)
    }
}

/// The version-2 descriptors among the first `upto`, each with its index.
pub open spec fn live_entries(entries: Seq<XRayFunctionEntry>, section_offset: u64, upto: int) -> Seq<
    XRayEntry,
>
    decreases upto,
{
    if upto <= 0 {
        Seq::empty()
    } else if entries[upto - 1].version == 2 {
        live_entries(entries, section_offset, upto - 1).push(
            XRayEntry { idx: (upto - 1) as u32, section_offset, entry: entries[upto - 1] },
        )
    } else {
        live_entries(entries, section_offset, upto - 1)
    }
}

/// Whether the descriptor at `k` is the first whose function stands at
/// `function`.
pub open spec fn is_first_of(live: Seq<XRayEntry>, function: u64, k: int) -> bool {
    &&& 0 <= k < live.len()
    &&& live[k].function_spec() == function
    &&& forall|j: int| 0 <= j < k ==> (#[trigger] live[j]).function_spec() != function
}

impl XRayInstrMap {
    /// Reads the table from the bytes of its section; `None` exactly when
    /// the section does not consist of whole descriptors.
    pub fn parse(buf: &[u8]) -> (r: Option<XRayInstrMap>)
        ensures
            r.is_some() <==> buf@.len() % 32 == 0,
            r.is_some() ==> r.unwrap().0@ == section_entries(buf@),
    {
        let len = buf.len();
        if len % XRAY_ENTRY_SIZE != 0 {
            return None;
        }
        let count: usize = len / XRAY_ENTRY_SIZE;
        let mut entries: Vec<XRayFunctionEntry> = Vec::new();
        let mut i: usize = 0;
        while i < count
            invariant
                len == buf@.len(),
                len % 32 == 0,
                count == len / 32,
                i <= count,
                entries@ == section_entries(buf@).subrange(0, i as int),
            decreases count - i,
        {
            let at: usize = i * XRAY_ENTRY_SIZE;
            let entry = XRayFunctionEntry {
                address: read_le64(buf, at),
                function: read_le64(buf, at + 8),
                kind: buf[at + 16],
                always_instrument: buf[at + 17],
                version: buf[at + 18],
            };
            entries.push(entry);
            assert(entries@ =~= section_entries(buf@).subrange(0, i + 1));
            i = i + 1;
        }
        assert(entries@ =~= section_entries(buf@));
        Some(XRayInstrMap(entries))
    }

    /// The descriptor at `idx`, whatever its version.
    pub fn get(&self, section_offset: u64, idx: u32) -> (r: XRayEntry)
        requires
            idx < self.0@.len(),
        ensures
            r == (XRayEntry { idx, section_offset, entry: self.0@[idx as int] }),
    {
        XRayEntry { idx, section_offset, entry: self.0[idx as usize] }
    }

    /// The descriptors of version 2, in table order, each with its index.
    /// Descriptors of other versions are passed over but still counted.
    pub fn iter(&self, section_offset: u64) -> (r: Vec<XRayEntry>)
        requires
            self.0@.len() <= 0x1_0000_0000,
        ensures
            r@ == live_entries(self.0@, section_offset, self.0@.len() as int),
    {
        let mut out: Vec<XRayEntry> = Vec::new();
        let mut i: usize = 0;
        while i < self.0.len()
            invariant
                i <= self.0@.len() <= 0x1_0000_0000,
                out@ == live_entries(self.0@, section_offset, i as int),
            decreases self.0@.len() - i,
        {
            let entry = self.0[i];
            if entry.version == XRAY_VERSION {
                out.push(XRayEntry { idx: i as u32, section_offset, entry });
            }
            i = i + 1;
        }
        out
    }

    /// The first version-2 descriptor whose function stands at
    /// `function`, or `None` when there is none.
    pub fn find_function(&self, section_offset: u64, function: u64) -> (r: Option<XRayEntry>)
        requires
            self.0@.len() <= 0x1_0000_0000,
        ensures
            match r {
                Some(entry) => exists|k: int|
                    #[trigger] is_first_of(
                        live_entries(self.0@, section_offset, self.0@.len() as int),
                        function,
                        k,
                    ) && live_entries(self.0@, section_offset, self.0@.len() as int)[k] == entry,
                None => forall|j: int|
                    0 <= j < live_entries(self.0@, section_offset, self.0@.len() as int).len() ==> (
                    #[trigger] live_entries(
                        self.0@,
                        section_offset,
                        self.0@.len() as int,
                    )[j]).function_spec() != function,
            },
    {
        let entries = self.iter(section_offset);
        let mut k: usize = 0;
        while k < entries.len()
            invariant
                k <= entries@.len(),
                entries@ == live_entries(self.0@, section_offset, self.0@.len() as int),
                forall|j: int| 0 <= j < k ==> (#[trigger] entries@[j]).function_spec() != function,
            decreases entries@.len() - k,
        {
            let entry = entries[k];
            if entry.function() == function {
                assert(is_first_of(entries@, function, k as int));
                return Some(entry);
            }
            k = k + 1;
        }
        None
    }
}

} // verus!
