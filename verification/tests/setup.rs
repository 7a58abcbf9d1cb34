use sftrace::filter::{FilterMap, FilterMark, FilterMode};
use sftrace::flags::{FuncFlag, FuncId};
use sftrace::setup::{
    build_id_matches, decide, find_holding, page_align, plan_patches, sled_base, slot_for,
    AddrRange, ImageKind, PatchStep, SledKind, Slot,
};
use sftrace::xray::{XRayEntry, XRayFunctionEntry, XRayInstrMap};

fn entry(address: u64, function: u64, kind: u8, version: u8) -> XRayFunctionEntry {
    XRayFunctionEntry { address, function, kind, always_instrument: 0, version }
}

fn filter(mode: FilterMode, marks: &[(u64, bool)]) -> FilterMap {
    let marks = marks
        .iter()
        .map(|&(addr, log)| FilterMark::new(addr, FuncFlag { log }).unwrap())
        .collect();
    FilterMap::from_marks(None, mode, marks)
}

fn raw(idx: u32, log: bool) -> u32 {
    FuncId::pack(idx, FuncFlag { log }).unwrap().raw()
}

#[test]
fn find_holding_picks_the_first_range_with_the_address() {
    let ranges = vec![
        AddrRange { start: 0x1000, len: 0x100 },
        AddrRange { start: 0x2000, len: 0x1000 },
        AddrRange { start: 0x2800, len: 0x1000 },
        AddrRange { start: 0x5000, len: 0 },
    ];
    assert_eq!(find_holding(&ranges, 0x1000), Some(0));
    assert_eq!(find_holding(&ranges, 0x10ff), Some(0));
    assert_eq!(find_holding(&ranges, 0x1100), None);
    assert_eq!(find_holding(&ranges, 0x2900), Some(1));
    assert_eq!(find_holding(&ranges, 0x3000), Some(2));
    assert_eq!(find_holding(&ranges, 0x5000), None);
    assert_eq!(find_holding(&vec![], 0), None);
}

#[test]
fn addr_range_near_the_top_of_memory() {
    let range = AddrRange { start: u64::MAX - 1, len: 10 };
    assert!(range.contains(u64::MAX));
    assert!(!range.contains(0));
    assert!(!range.contains(u64::MAX - 2));
}

#[test]
fn page_align_covers_the_text() {
    assert_eq!(
        page_align(AddrRange { start: 0x1234, len: 0x100 }, 0x1000),
        Some(AddrRange { start: 0x1000, len: 0x1000 })
    );
    assert_eq!(
        page_align(AddrRange { start: 0x1ff0, len: 0x20 }, 0x1000),
        Some(AddrRange { start: 0x1000, len: 0x2000 })
    );
    assert_eq!(
        page_align(AddrRange { start: 0x4000, len: 0x2000 }, 0x1000),
        Some(AddrRange { start: 0x4000, len: 0x2000 })
    );
    assert_eq!(
        page_align(AddrRange { start: 0x4000, len: 0x2001 }, 0x4000),
        Some(AddrRange { start: 0x4000, len: 0x4000 })
    );
    assert_eq!(page_align(AddrRange { start: u64::MAX - 5, len: 2 }, 0x1000), None);
}

#[test]
fn build_id_comparison() {
    assert!(build_id_matches(b"abc", Some(b"abc")));
    assert!(!build_id_matches(b"abc", Some(b"abd")));
    assert!(!build_id_matches(b"abc", Some(b"ab")));
    assert!(build_id_matches(b"abc", None));
    assert!(build_id_matches(b"", Some(b"")));
}

#[test]
fn sled_base_of_an_image() {
    assert_eq!(sled_base(false, ImageKind::Executable, 0x5000), 0x5000);
    assert_eq!(sled_base(false, ImageKind::Dynamic, 0x5000), 0x5000);
    assert_eq!(sled_base(true, ImageKind::Executable, 0x5000), 0);
    assert_eq!(sled_base(true, ImageKind::Dynamic, 0x5000), 0x5000);
    assert_eq!(sled_base(true, ImageKind::Other, 0x5000), 0x5000);
}

fn table() -> XRayInstrMap {
    // With the section at 0x1000, descriptor i lies at 0x1000 + 32 i; the
    // function field, 8 bytes further, holds an offset from its own place.
    XRayInstrMap(vec![
        entry(0x100, 0x10, 0, 2),
        entry(0x100, 0x10, 1, 2),
        entry(0x100, 0x10, 2, 1),
        entry(0x100, 0x10, 2, 2),
        entry(0x100, 0x10, 7, 2),
    ])
}

fn function_of(idx: u64) -> u64 {
    0x1000 + 32 * idx + 0x10 + 8
}

fn sled_of(idx: u64) -> u64 {
    0x1000 + 32 * idx + 0x100
}

#[test]
fn plan_without_filter_patches_every_sled() {
    let steps = plan_patches(&table(), 0x1000, None, 0x40_0000);
    assert_eq!(
        steps,
        vec![
            PatchStep::Patch { kind: SledKind::Entry, slot: Slot::Entry, address: 0x40_0000 + sled_of(0), func_id: raw(0, false) },
            PatchStep::Patch { kind: SledKind::Exit, slot: Slot::Exit, address: 0x40_0000 + sled_of(1), func_id: raw(1, false) },
            PatchStep::Patch { kind: SledKind::TailCall, slot: Slot::TailCall, address: 0x40_0000 + sled_of(3), func_id: raw(3, false) },
            PatchStep::UnknownKind { idx: 4, code: 7 },
        ]
    );
}

#[test]
fn plan_with_mark_map_patches_all_and_adds_flags() {
    let map = filter(FilterMode::Mark, &[(function_of(1), true), (function_of(3), false)]);
    let steps = plan_patches(&table(), 0x1000, Some(&map), 0);
    assert_eq!(
        steps,
        vec![
            PatchStep::Patch { kind: SledKind::Entry, slot: Slot::Entry, address: sled_of(0), func_id: raw(0, false) },
            PatchStep::Patch { kind: SledKind::Exit, slot: Slot::ExitLog, address: sled_of(1), func_id: raw(1, true) },
            PatchStep::Patch { kind: SledKind::TailCall, slot: Slot::TailCall, address: sled_of(3), func_id: raw(3, false) },
            PatchStep::UnknownKind { idx: 4, code: 7 },
        ]
    );
}

#[test]
fn plan_with_filter_map_patches_listed_functions_only() {
    let map = filter(FilterMode::Filter, &[(function_of(1), true), (function_of(3), false)]);
    let steps = plan_patches(&table(), 0x1000, Some(&map), 0);
    assert_eq!(
        steps,
        vec![
            PatchStep::Patch { kind: SledKind::Exit, slot: Slot::ExitLog, address: sled_of(1), func_id: raw(1, true) },
            PatchStep::Patch { kind: SledKind::TailCall, slot: Slot::TailCall, address: sled_of(3), func_id: raw(3, false) },
        ]
    );
    let empty = filter(FilterMode::Filter, &[]);
    assert_eq!(plan_patches(&table(), 0x1000, Some(&empty), 0), vec![]);
}

#[test]
fn decide_stops_at_an_index_that_does_not_fit() {
    let wide = XRayEntry { idx: 0x00ff_ffff, section_offset: 0, entry: entry(0, 0, 0, 2) };
    assert_eq!(decide(&wide, None, 0), Some(PatchStep::IndexTooLarge { idx: 0x00ff_ffff }));
    let last = XRayEntry { idx: 0x00ff_fffe, section_offset: 0, entry: entry(0x40, 0, 1, 2) };
    assert_eq!(
        decide(&last, None, 0x1000),
        Some(PatchStep::Patch {
            kind: SledKind::Exit,
            slot: Slot::Exit,
            address: 0x1000 + 32 * 0x00ff_fffe + 0x40,
            func_id: 0x00ff_ffff
        })
    );
    // A function that the filter leaves alone is passed over even then.
    let empty = filter(FilterMode::Filter, &[]);
    assert_eq!(decide(&wide, Some(&empty), 0), None);
}

#[test]
fn slot_of_each_sled() {
    let plain = FuncFlag::empty();
    let log = FuncFlag::log();
    assert_eq!(slot_for(SledKind::Entry, plain), Slot::Entry);
    assert_eq!(slot_for(SledKind::Entry, log), Slot::EntryLog);
    assert_eq!(slot_for(SledKind::Exit, plain), Slot::Exit);
    assert_eq!(slot_for(SledKind::Exit, log), Slot::ExitLog);
    assert_eq!(slot_for(SledKind::TailCall, plain), Slot::TailCall);
    assert_eq!(slot_for(SledKind::TailCall, log), Slot::TailCall);
}

#[test]
fn plan_sends_logged_entries_to_the_logging_slot() {
    let map = filter(FilterMode::Mark, &[(function_of(0), true)]);
    let steps = plan_patches(&table(), 0x1000, Some(&map), 0);
    assert_eq!(
        steps[0],
        PatchStep::Patch { kind: SledKind::Entry, slot: Slot::EntryLog, address: sled_of(0), func_id: raw(0, true) }
    );
}
