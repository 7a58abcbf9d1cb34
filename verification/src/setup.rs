//! What the one-time setup decides: which loaded image is the
//! instrumented one, which text to unlock, and what to write into each
//! sled.

use crate::bytes::bytes_eq;
use crate::filter::{FilterMap, FilterMode};
use crate::flags::{pack_spec, FuncFlag, FuncId};
use crate::xray::{live_entries, XRayEntry, XRayInstrMap};
use vstd::prelude::*;

verus! {

/// A range of addresses: a loaded image or one of its segments.
#[derive(Clone, Copy, Debug, PartialEq, Eq, Structural)]
pub struct AddrRange {
    pub start: u64,
    pub len: u64,
}

impl AddrRange {
    /// Whether the address lies in the range.
    pub open spec fn holds(self, addr: u64) -> bool {
        self.start <= addr < self.start + self.len
    }

    /// Whether the address lies in the range.
    pub fn contains(&self, addr: u64) -> (b: bool)
        ensures
            b == self.holds(addr),
    {
        addr >= self.start && addr - self.start < self.len
    }
}

/// Finds the range that holds the address of a slot: among the loaded
/// images, the instrumented one; among its code segments, the text to
/// unlock. Returns the index of the first such range.
pub fn find_holding(ranges: &Vec<AddrRange>, addr: u64) -> (r: Option<usize>)
    ensures
        match r {
            Some(i) => i < ranges@.len() && ranges@[i as int].holds(addr) && forall|j: int|
                0 <= j < i ==> !(#[trigger] ranges@[j]).holds(addr),
            None => forall|j: int| 0 <= j < ranges@.len() ==> !(#[trigger] ranges@[j]).holds(addr),
        },
{
    let mut i: usize = 0;
    while i < ranges.len()
        invariant
            i <= ranges@.len(),
            forall|j: int| 0 <= j < i ==> !(#[trigger] ranges@[j]).holds(addr),
        decreases ranges@.len() - i,
    {
        if ranges[i].contains(addr) {
            return Some(i);
        }
        i = i + 1;
    }
    None
}

/// The address rounded down to a multiple of the page size.
pub open spec fn page_floor(addr: int, page_size: int) -> int {
    addr - addr % page_size
}

/// The address rounded up to a multiple of the page size.
pub open spec fn page_ceil(addr: int, page_size: int) -> int {
    if addr % page_size == 0 {
        addr
    } else {
        addr - addr % page_size + page_size
    }
}

/// The pages that cover a text segment: the start rounded down to a page
/// and the length rounded up to whole pages. `None` exactly when the
/// pages would end beyond the address space.
pub fn page_align(text: AddrRange, page_size: u64) -> (r: Option<AddrRange>)
    requires
        page_size > 0,
    ensures
        r.is_some() <==> page_ceil(text.start + text.len, page_size as int) <= u64::MAX,
        r.is_some() ==> r.unwrap().start == page_floor(text.start as int, page_size as int)
            && r.unwrap().start + r.unwrap().len == page_ceil(
            text.start + text.len,
            page_size as int,
        ),
{
    let below: u64 = text.start % page_size;
    assert(below <= text.start) by (nonlinear_arith)
        requires
            below == text.start % page_size,
            page_size > 0,
    ;
    let start: u64 = text.start - below;
    let sum: u128 = text.start as u128 + text.len as u128;
    let rest: u128 = sum % (page_size as u128);
    assert(rest <= sum) by (nonlinear_arith)
        requires
            rest == sum % (page_size as u128),
            page_size > 0,
    ;
    let end: u128 = if rest == 0 {
        sum
    } else {
        sum - rest + page_size as u128
    };
    if end > u64::MAX as u128 {
        return None;
    }
    assert(rest < page_size) by (nonlinear_arith)
        requires
            rest == sum % (page_size as u128),
            page_size > 0,
    ;
    assert(start <= text.start <= end);
    Some(AddrRange { start, len: (end - start as u128) as u64 })
}

/// Whether the build-id that the loader reports for an image agrees with
/// the one found in its file. A file without a build-id agrees with any.
pub fn build_id_matches(loaded: &[u8], file: Option<&[u8]>) -> (ok: bool)
    ensures
        ok == (match file {
            Some(id) => loaded@ == id@,
            None => true,
        }),
{
    match file {
        None => true,
        Some(id) => bytes_eq(loaded, id),
    }
}

/// The kind of object file that an image was loaded from.
#[derive(Clone, Copy, Debug, PartialEq, Eq, Structural)]
pub enum ImageKind {
    Executable,
    Dynamic,
    Other,
}

/// The address that the sled addresses of an image are relative to: the
/// load base, except that the loader of macOS maps an executable so that
/// its addresses need no base.
pub fn sled_base(macos: bool, kind: ImageKind, load_base: u64) -> (base: u64)
    ensures
        base == if macos && kind == ImageKind::Executable {
            0
        } else {
            load_base
        },
{
    match kind {
        ImageKind::Executable => if macos {
            0
        } else {
            load_base
        },
        _ => load_base,
    }
}

/// What a sled is patched for.
#[derive(Clone, Copy, Debug, PartialEq, Eq, Structural)]
pub enum SledKind {
    Entry,
    Exit,
    TailCall,
}

/// One of the small routines that the instrumented binary sets aside:
/// each sled branches to a slot, and each slot is made to jump to the
/// trampoline of its name.
#[derive(Clone, Copy, Debug, PartialEq, Eq, Structural)]
pub enum Slot {
    Entry,
    EntryLog,
    Exit,
    ExitLog,
    TailCall,
}

/// The slot that a sled of the given kind branches to: for a function
/// flagged LOG, entry and exit sleds take the logging slots.
pub fn slot_for(kind: SledKind, flag: FuncFlag) -> (slot: Slot)
    ensures
        slot == slot_of(kind, flag),
{
    match kind {
        SledKind::Entry => if flag.log {
            Slot::EntryLog
        } else {
            Slot::Entry
        },
        SledKind::Exit => if flag.log {
            Slot::ExitLog
        } else {
            Slot::Exit
        },
        SledKind::TailCall => Slot::TailCall,
    }
}

/// What setup does with one sled descriptor.
#[derive(Clone, Copy, Debug, PartialEq, Eq, Structural)]
pub enum PatchStep {
    /// Patch the sled at `address` to pass `func_id` on and to branch to
    /// `slot`.
    Patch { kind: SledKind, slot: Slot, address: u64, func_id: u32 },
    /// Warn of a sled kind that is not known, and leave the sled.
    UnknownKind { idx: u32, code: u8 },
    /// Stop: the index does not fit a function identifier.
    IndexTooLarge { idx: u32 },
}

/// The flags with which a function is patched, or `None` when it is left
/// alone. Without a filter map every function is patched without flags.
/// A MARK map patches every function and adds the flags of those it
/// lists; a FILTER map patches the functions it lists and no other.
pub open spec fn patch_flags(filter: Option<FilterMap>, function: u64) -> Option<FuncFlag> {
    match filter {
        None => Some(FuncFlag { log: false }),
        Some(map) => {
            if map.lists(function) {
                Some(mark_of(map, function).flag_spec())
            } else if map.mode_spec() == FilterMode::Mark {
                Some(FuncFlag { log: false })
            } else {
                None
            }
        },
    }
}

/// The mark of a map for an address that it lists.
pub open spec fn mark_of(map: FilterMap, function: u64) -> crate::filter::FilterMark {
    choose|mark: crate::filter::FilterMark|
        map.marks().contains(mark) && mark.addr_spec() == function
}

/// The slot that a sled of the given kind branches to.
pub open spec fn slot_of(kind: SledKind, flag: FuncFlag) -> Slot {
    match kind {
        SledKind::Entry => if flag.log {
            Slot::EntryLog
        } else {
            Slot::Entry
        },
        SledKind::Exit => if flag.log {
            Slot::ExitLog
        } else {
            Slot::Exit
        },
        SledKind::TailCall => Slot::TailCall,
    }
}

/// The sled kind that a descriptor's number names.
pub open spec fn sled_kind(kind: u8) -> Option<SledKind> {
    if kind == 0 {
        Some(SledKind::Entry)
    } else if kind == 1 {
        Some(SledKind::Exit)
    } else if kind == 2 {
        Some(SledKind::TailCall)
    } else {
        None
    }
}

/// What setup does with a descriptor, or `None` when the filter leaves
/// its function alone. The sled stands at the load base plus the address
/// that the descriptor gives, modulo 2^64.
pub open spec fn step_for(entry: XRayEntry, filter: Option<FilterMap>, base: u64) -> Option<
    PatchStep,
> {
    match patch_flags(filter, entry.function_spec()) {
        None => None,
        Some(flag) => Some(
            if entry.idx >= 0x00ff_ffffu32 {
                PatchStep::IndexTooLarge { idx: entry.idx }
            } else {
                match sled_kind(entry.entry.kind) {
                    Some(kind) => PatchStep::Patch {
                        kind,
                        slot: slot_of(kind, flag),
                        address: base.wrapping_add(entry.address_spec()),
                        func_id: pack_spec(entry.idx, flag),
                    },
                    None => PatchStep::UnknownKind { idx: entry.idx, code: entry.entry.kind },
                }
            },
        ),
    }
}

/// The steps for the first `upto` of the given descriptors, in order. The
/// steps end with the first descriptor whose index is too large.
pub open spec fn steps_for(entries: Seq<XRayEntry>, filter: Option<FilterMap>, base: u64, upto: int) -> Seq<
    PatchStep,
>
    decreases upto,
{
    if upto <= 0 {
        Seq::empty()
    } else {
        let before = steps_for(entries, filter, base, upto - 1);
        if before.len() > 0 && before.last() is IndexTooLarge {
            before
        } else {
            match step_for(entries[upto - 1], filter, base) {
                Some(step) => before.push(step),
                None => before,
            }
        }
    }
}

/// Decides what to do with one descriptor.
pub fn decide(entry: &XRayEntry, filter: Option<&FilterMap>, base: u64) -> (r: Option<PatchStep>)
    ensures
        r == step_for(
            *entry,
            match filter {
                Some(map) => Some(*map),
                None => None,
            },
            base,
        ),
{
    let mut flag = FuncFlag::empty();
    if let Some(map) = filter {
        let found = map.check(entry.function());
        match found {
            Some(mark) => {
                proof {
                    map.lemma_mark_unique(mark, mark_of(*map, entry.function_spec()));
                }
                flag = flag.union(mark.flag());
            },
            None => {
                match map.mode() {
                    FilterMode::Mark => {},
                    FilterMode::Filter => {
                        return None;
                    },
                }
            },
        }
    }
    let func_id = match FuncId::pack(entry.id(), flag) {
        Some(id) => id.raw(),
        None => {
            return Some(PatchStep::IndexTooLarge { idx: entry.idx });
        },
    };
    let address = base.wrapping_add(entry.address());
    let code = entry.kind();
    let kind = if code == 0 {
        SledKind::Entry
    } else if code == 1 {
        SledKind::Exit
    } else if code == 2 {
        SledKind::TailCall
    } else {
        return Some(PatchStep::UnknownKind { idx: entry.idx, code });
    };
    Some(PatchStep::Patch { kind, slot: slot_for(kind, flag), address, func_id })
}

/// Decides, for every version-2 descriptor of the table in order, what
/// setup does with its sled.
pub fn plan_patches(map: &XRayInstrMap, section_offset: u64, filter: Option<&FilterMap>, base: u64) -> (steps:
    Vec<PatchStep>)
    requires
        map.0@.len() <= 0x1_0000_0000,
    ensures
        steps@ == steps_for(
            live_entries(map.0@, section_offset, map.0@.len() as int),
            match filter {
                Some(map) => Some(*map),
                None => None,
            },
            base,
            live_entries(map.0@, section_offset, map.0@.len() as int).len() as int,
        ),
{
    let entries = map.iter(section_offset);
    let ghost filter_spec = match filter {
        Some(map) => Some(*map),
        None => None,
    };
    let mut steps: Vec<PatchStep> = Vec::new();
    let mut i: usize = 0;
    let mut stopped: bool = false;
    while i < entries.len()
        invariant
            i <= entries@.len(),
            filter_spec == (match filter {
                Some(map) => Some(*map),
                None => None,
            }),
            steps@ == steps_for(entries@, filter_spec, base, i as int),
            stopped == (steps@.len() > 0 && steps@.last() is IndexTooLarge),
        decreases entries@.len() - i,
    {
        if !stopped {
            match decide(&entries[i], filter, base) {
                Some(step) => {
                    stopped = match step {
                        PatchStep::IndexTooLarge { .. } => true,
                        _ => false,
                    };
                    steps.push(step);
                },
                None => {},
            }
        }
        i = i + 1;
    }
    steps
}

} // verus!
