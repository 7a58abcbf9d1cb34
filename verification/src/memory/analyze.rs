//! Following the live heap through the stages.

use super::ptrmap::{
    inserted, lookup, ptrmap_entries, ptrmap_insert, ptrmap_new, ptrmap_swap_remove,
    ptrmap_values, swap_removed, values_of,
};
use super::split::{Diagnostic, StageResult};
use super::{AllocRecord, MemoryAnalyzer};
use crate::layout::Kind;
use indexmap::IndexMap;
use vstd::prelude::*;

verus! {

/// What the analysis found.
pub struct AnalyzeResult {
    /// For each stage, the live bytes after each of its kept events.
    pub list: Vec<Vec<u64>>,
    /// The allocations still live at the end: the candidate leaks.
    pub leakmap: IndexMap<u64, usize>,
    /// For each selected stage, in order, the allocations live at its end.
    pub selectmap: Vec<(usize, Vec<usize>)>,
    /// The double allocations and stray releases found.
    pub diagnostics: Vec<Diagnostic>,
}

/// What is known of the heap in the middle of the analysis.
pub struct HeapState {
    /// Pointer to the allocation that made it live, in the map's order.
    pub live: Seq<(u64, usize)>,
    /// Live bytes, counted modulo 2^64.
    pub bytes: u64,
    /// Findings so far.
    pub diagnostics: Seq<Diagnostic>,
}

impl StageResult {
    /// The kept events of each stage.
    pub open spec fn lists(self) -> Seq<Seq<usize>> {
        Seq::new(self.list@.len(), |s: int| self.list@[s]@)
    }
}

impl HeapState {
    /// The heap before any event.
    pub open spec fn init() -> HeapState {
        HeapState { live: Seq::empty(), bytes: 0, diagnostics: Seq::empty() }
    }

    /// The heap after the event at `idx`, met in stage `stage`.
    ///
    /// An allocation becomes the live one of its pointer and adds its
    /// size; a pointer that was live already is a finding. A release ends
    /// the live allocation of its pointer and takes its own size off; a
    /// pointer that was not live is a finding.
    pub open spec fn step(self, events: Seq<AllocRecord>, idx: usize, stage: int) -> HeapState {
        let ev = events[idx as int];
        let found = lookup(self.live, ev.ptr);
        if ev.kind.is_alloc() {
            HeapState {
                live: inserted(self.live, ev.ptr, idx),
                bytes: self.bytes.wrapping_add(ev.size),
                diagnostics: if found.is_some() {
                    self.diagnostics.push(
                        Diagnostic::BadAlloc {
                            stage: stage as usize,
                            old: found.unwrap(),
                            new: idx,
                            ptr: ev.ptr,
                        },
                    )
                } else {
                    self.diagnostics
                },
            }
        } else {
            HeapState {
                live: swap_removed(self.live, ev.ptr),
                bytes: self.bytes.wrapping_sub(ev.size),
                diagnostics: if found.is_none() {
                    self.diagnostics.push(
                        Diagnostic::BadFree { stage: stage as usize, idx, ptr: ev.ptr },
                    )
                } else {
                    self.diagnostics
                },
            }
        }
    }

    /// The heap after the first `upto` events of `list`.
    pub open spec fn after_events(self, events: Seq<AllocRecord>, list: Seq<usize>, stage: int, upto: int) -> HeapState
        decreases upto,
    {
        if upto <= 0 {
            self
        } else {
            self.after_events(events, list, stage, upto - 1).step(events, list[upto - 1], stage)
        }
    }

    /// The heap after the first `upto` stages.
    pub open spec fn after_stages(events: Seq<AllocRecord>, lists: Seq<Seq<usize>>, upto: int) -> HeapState
        decreases upto,
    {
        if upto <= 0 {
            HeapState::init()
        } else {
            HeapState::after_stages(events, lists, upto - 1).after_events(
                events,
                lists[upto - 1],
                upto - 1,
                lists[upto - 1].len() as int,
            )
        }
    }
}

/// The live bytes after each kept event of a stage.
pub open spec fn timeline(events: Seq<AllocRecord>, lists: Seq<Seq<usize>>, stage: int) -> Seq<u64> {
    Seq::new(
        lists[stage].len(),
        |i: int|
            HeapState::after_stages(events, lists, stage).after_events(
                events,
                lists[stage],
                stage,
                i + 1,
            ).bytes,
    )
}

/// The selected stages among the first `upto`, each with the allocations
/// live at its end.
pub open spec fn snapshots(events: Seq<AllocRecord>, lists: Seq<Seq<usize>>, select: Seq<usize>, upto: int) -> Seq<
    (usize, Seq<usize>),
>
    decreases upto,
{
    if upto <= 0 {
        Seq::empty()
    } else if select.contains((upto - 1) as usize) {
        snapshots(events, lists, select, upto - 1).push(
            ((upto - 1) as usize, values_of(HeapState::after_stages(events, lists, upto).live)),
        )
    } else {
        snapshots(events, lists, select, upto - 1)
    }
}

/// The sizes of the first `upto` events of `list`, added up.
pub open spec fn total_size(events: Seq<AllocRecord>, list: Seq<usize>, upto: int) -> int
    decreases upto,
{
    if upto <= 0 {
        0
    } else {
        total_size(events, list, upto - 1) + events[list[upto - 1] as int].size
    }
}

/// The sum of sizes grows with the number of events added.
pub proof fn lemma_total_size_grows(events: Seq<AllocRecord>, list: Seq<usize>, a: int, b: int)
    requires
        0 <= a <= b,
    ensures
        0 <= total_size(events, list, a) <= total_size(events, list, b),
    decreases b,
{
    if a < b {
        lemma_total_size_grows(events, list, a, b - 1);
    } else if a > 0 {
        lemma_total_size_grows(events, list, a - 1, a - 1);
    }
}

/// A stage that holds allocations only never lowers the live bytes: its
/// timeline does not descend. The count is taken not to pass 2^64 - 1,
/// beyond which it wraps.
pub proof fn lemma_allocs_only_timeline_ascends(
    events: Seq<AllocRecord>,
    lists: Seq<Seq<usize>>,
    stage: int,
)
    requires
        0 <= stage < lists.len(),
        forall|i: int|
            0 <= i < lists[stage].len() ==> (#[trigger] events[lists[stage][i] as int]).kind.is_alloc(),
        HeapState::after_stages(events, lists, stage).bytes + total_size(
            events,
            lists[stage],
            lists[stage].len() as int,
        ) <= u64::MAX,
    ensures
        forall|i: int, j: int|
            0 <= i <= j < lists[stage].len() ==> #[trigger] timeline(events, lists, stage)[i]
                <= #[trigger] timeline(events, lists, stage)[j],
{
    let start = HeapState::after_stages(events, lists, stage);
    let list = lists[stage];
    assert forall|i: int, j: int| 0 <= i <= j < list.len() implies #[trigger] timeline(
        events,
        lists,
        stage,
    )[i] <= #[trigger] timeline(events, lists, stage)[j] by {
        lemma_allocs_only_bytes(start, events, list, stage, i + 1);
        lemma_allocs_only_bytes(start, events, list, stage, j + 1);
        lemma_total_size_grows(events, list, i + 1, j + 1);
    }
}

/// While only allocations are met and the count does not wrap, the live
/// bytes are the bytes at the start plus the sizes met.
pub proof fn lemma_allocs_only_bytes(
    start: HeapState,
    events: Seq<AllocRecord>,
    list: Seq<usize>,
    stage: int,
    upto: int,
)
    requires
        0 <= upto <= list.len(),
        forall|i: int| 0 <= i < list.len() ==> (#[trigger] events[list[i] as int]).kind.is_alloc(),
        start.bytes + total_size(events, list, list.len() as int) <= u64::MAX,
    ensures
        start.after_events(events, list, stage, upto).bytes == start.bytes + total_size(
            events,
            list,
            upto,
        ),
    decreases upto,
{
    if upto > 0 {
        lemma_allocs_only_bytes(start, events, list, stage, upto - 1);
        lemma_total_size_grows(events, list, upto, list.len() as int);
        lemma_total_size_grows(events, list, upto - 1, upto);
        assert(events[list[upto - 1] as int].kind.is_alloc());
    }
}

/// What a list of snapshots holds.
pub open spec fn snapshots_view(selectmap: Seq<(usize, Vec<usize>)>) -> Seq<(usize, Seq<usize>)> {
    Seq::new(selectmap.len(), |k: int| (selectmap[k].0, selectmap[k].1@))
}

/// Whether `list` holds `x`.
fn holds(list: &Vec<usize>, x: usize) -> (b: bool)
    ensures
        b == list@.contains(x),
{
    let mut i: usize = 0;
    while i < list.len()
        invariant
            i <= list@.len(),
            forall|k: int| 0 <= k < i ==> list@[k] != x,
        decreases list@.len() - i,
    {
        if list[i] == x {
            return true;
        }
        i = i + 1;
    }
    false
}

impl MemoryAnalyzer {
    /// Walks the stages in order and follows the live heap.
    ///
    /// `select` names the stages whose live allocations are wanted. The
    /// bytes are counted modulo 2^64, so a release that was never matched
    /// by an allocation wraps the count and is reported, not refused.
    pub fn analyze(&self, select: &Vec<usize>, result: &StageResult) -> (r: AnalyzeResult)
        requires
            result.fits(self@.events.len() as int),
        ensures
            r.list@.len() == result.list@.len(),
            forall|s: int|
                0 <= s < r.list@.len() ==> (#[trigger] r.list@[s])@ == timeline(
                    self@.events,
                    result.lists(),
                    s,
                ),
            ptrmap_entries(r.leakmap) == HeapState::after_stages(
                self@.events,
                result.lists(),
                result.list@.len() as int,
            ).live,
            snapshots_view(r.selectmap@) == snapshots(
                self@.events,
                result.lists(),
                select@,
                result.list@.len() as int,
            ),
            r.diagnostics@ == HeapState::after_stages(
                self@.events,
                result.lists(),
                result.list@.len() as int,
            ).diagnostics,
    {
        let ghost events = self@.events;
        let ghost lists = result.lists();
        let mut ptrmap = ptrmap_new();
        let mut heaplist: Vec<Vec<u64>> = Vec::new();
        let mut heap_count: u64 = 0;
        let mut selectmap: Vec<(usize, Vec<usize>)> = Vec::new();
        let mut diagnostics: Vec<Diagnostic> = Vec::new();
        let stages: usize = result.list.len();
        let mut stage_idx: usize = 0;
        assert(snapshots_view(selectmap@) =~= snapshots(events, lists, select@, 0));
        while stage_idx < stages
            invariant
                stage_idx <= stages,
                stages == result.list@.len(),
                events == self@.events,
                lists == result.lists(),
                result.fits(events.len() as int),
                heaplist@.len() == stage_idx,
                forall|s: int|
                    0 <= s < stage_idx ==> (#[trigger] heaplist@[s])@ == timeline(events, lists, s),
                ptrmap_entries(ptrmap) == HeapState::after_stages(
                    events,
                    lists,
                    stage_idx as int,
                ).live,
                heap_count == HeapState::after_stages(events, lists, stage_idx as int).bytes,
                diagnostics@ == HeapState::after_stages(
                    events,
                    lists,
                    stage_idx as int,
                ).diagnostics,
                snapshots_view(selectmap@) == snapshots(events, lists, select@, stage_idx as int),
            decreases stages - stage_idx,
        {
            let stage: &Vec<usize> = &result.list[stage_idx];
            let ghost start = HeapState::after_stages(events, lists, stage_idx as int);
            let ghost list = lists[stage_idx as int];
            assert(list == stage@);
            let mut current: Vec<u64> = Vec::new();
            let mut i: usize = 0;
            while i < stage.len()
                invariant
                    i <= stage@.len(),
                    stage_idx < stages,
                    stages == result.list@.len(),
                    events == self@.events,
                    lists == result.lists(),
                    list == stage@,
                    list == lists[stage_idx as int],
                    *stage == result.list@[stage_idx as int],
                    result.fits(events.len() as int),
                    start == HeapState::after_stages(events, lists, stage_idx as int),
                    ptrmap_entries(ptrmap) == start.after_events(
                        events,
                        list,
                        stage_idx as int,
                        i as int,
                    ).live,
                    heap_count == start.after_events(events, list, stage_idx as int, i as int).bytes,
                    diagnostics@ == start.after_events(
                        events,
                        list,
                        stage_idx as int,
                        i as int,
                    ).diagnostics,
                    current@.len() == i,
                    forall|k: int|
                        0 <= k < i ==> current@[k] == start.after_events(
                            events,
                            list,
                            stage_idx as int,
                            k + 1,
                        ).bytes,
                decreases stage@.len() - i,
            {
                let idx: usize = stage[i];
                assert(result.list@[stage_idx as int]@[i as int] < events.len());
                let ev = self.alloc_event[idx];
                match ev.kind {
                    Kind::Alloc | Kind::ReallocAlloc => {
                        if let Some(oldidx) = ptrmap_insert(&mut ptrmap, ev.ptr, idx) {
                            diagnostics.push(
                                Diagnostic::BadAlloc {
                                    stage: stage_idx,
                                    old: oldidx,
                                    new: idx,
                                    ptr: ev.ptr,
                                },
                            );
                        }
                        heap_count = heap_count.wrapping_add(ev.size);
                    },
                    _ => {
                        if ptrmap_swap_remove(&mut ptrmap, ev.ptr).is_none() {
                            diagnostics.push(
                                Diagnostic::BadFree { stage: stage_idx, idx, ptr: ev.ptr },
                            );
                        }
                        heap_count = heap_count.wrapping_sub(ev.size);
                    },
                }
                current.push(heap_count);
                i = i + 1;
            }
            proof {
                assert(current@ =~= timeline(events, lists, stage_idx as int));
                assert(start.after_events(events, list, stage_idx as int, list.len() as int)
                    == HeapState::after_stages(events, lists, stage_idx + 1));
            }
            if holds(select, stage_idx) {
                let live = ptrmap_values(&ptrmap);
                selectmap.push((stage_idx, live));
                assert(snapshots_view(selectmap@) =~= snapshots(
                    events,
                    lists,
                    select@,
                    stage_idx + 1,
                ));
            } else {
                assert(snapshots_view(selectmap@) =~= snapshots(
                    events,
                    lists,
                    select@,
                    stage_idx + 1,
                ));
            }
            heaplist.push(current);
            stage_idx = stage_idx + 1;
        }
        AnalyzeResult { list: heaplist, leakmap: ptrmap, selectmap, diagnostics }
    }
}

} // verus!
