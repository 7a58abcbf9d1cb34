//! Cutting the allocator events into stages at the milestones, and
//! cancelling the matched allocations of each stage.

use super::ptrmap::{
    has_key, inserted, keys_distinct, lemma_inserted, lemma_lookup_entry, lemma_position,
    lemma_swap_removed, lookup, position, ptrmap_entries, ptrmap_insert, ptrmap_new,
    ptrmap_swap_remove, ptrmap_values, swap_removed, values_of,
};
use super::sorting::{
    is_stable_time_sort, later_first, lemma_lower_first_total, lower_first,
    sort_events_by_time, sort_indices, sort_times_descending, sorted_by_time,
};
use super::keep::{lemma_stage_keep_is_direct, survives};
use super::{AllocRecord, MemoryAnalyzer};
use crate::layout::Kind;
use std::collections::HashMap;
use vstd::prelude::*;

verus! {

broadcast use vstd::std_specs::hash::group_hash_axioms;

/// A finding that is reported and does not stop the analysis.
#[derive(Clone, Copy, Debug, PartialEq, Eq, Structural)]
pub enum Diagnostic {
    /// Two allocations of one pointer with no release between them.
    BadAlloc { stage: usize, old: usize, new: usize, ptr: u64 },
    /// A release of a pointer that is not live.
    BadFree { stage: usize, idx: usize, ptr: u64 },
}

/// The stages of a trace.
pub struct StageResult {
    /// For each stage, the events that survive cancellation, ascending.
    pub list: Vec<Vec<usize>>,
    /// For each stage, the range of events that it covers.
    pub ranges: Vec<(usize, usize)>,
    /// The double allocations found, stage by stage.
    pub diagnostics: Vec<Diagnostic>,
}

impl StageResult {
    /// Every kept index names one of `count` events.
    pub open spec fn fits(self, count: int) -> bool {
        forall|s: int, i: int|
            0 <= s < self.list@.len() && 0 <= i < self.list@[s]@.len() ==> #[trigger] self.list@[s]@[i]
                < count
    }
}

/// The first index at or after `from` whose event is later than `point`,
/// or the number of events when there is none.
pub open spec fn first_after(events: Seq<AllocRecord>, from: int, point: u64) -> int
    decreases events.len() - from,
{
    if from >= events.len() || events[from].time > point {
        from
    } else {
        first_after(events, from + 1, point)
    }
}

/// The ranges of the stages that start at `from`. `milestones` holds the
/// milestone times still to come, the latest first: the last of them ends
/// the next stage. When the milestones run out one more stage takes the
/// rest; when the events run out no further stage is made.
pub open spec fn stage_bounds(events: Seq<AllocRecord>, milestones: Seq<u64>, from: int) -> Seq<
    (usize, usize),
>
    decreases milestones.len(),
{
    if from >= events.len() {
        Seq::empty()
    } else if milestones.len() == 0 {
        seq![(from as usize, events.len() as usize)]
    } else {
        let end = first_after(events, from, milestones.last());
        seq![(from as usize, end as usize)] + stage_bounds(events, milestones.drop_last(), end)
    }
}

/// The milestones that no stage used.
pub open spec fn milestones_left(events: Seq<AllocRecord>, milestones: Seq<u64>, from: int) -> Seq<
    u64,
>
    decreases milestones.len(),
{
    if from >= events.len() || milestones.len() == 0 {
        milestones
    } else {
        milestones_left(
            events,
            milestones.drop_last(),
            first_after(events, from, milestones.last()),
        )
    }
}

/// Whether the ranges follow one another from `from` to `to` without a
/// gap: every event in between belongs to exactly one of them.
pub open spec fn tiles(ranges: Seq<(usize, usize)>, from: int, to: int) -> bool {
    &&& forall|k: int| 0 <= k < ranges.len() ==> (#[trigger] ranges[k]).0 <= ranges[k].1
    &&& forall|k: int| 0 <= k < ranges.len() - 1 ==> (#[trigger] ranges[k]).1 == ranges[k + 1].0
    &&& if ranges.len() == 0 {
        from == to
    } else {
        ranges.first().0 == from && ranges.last().1 == to
    }
}

/// The first event after a point is found at or after the place where
/// the search starts, and not beyond the end.
pub proof fn lemma_first_after_range(events: Seq<AllocRecord>, from: int, point: u64)
    requires
        0 <= from <= events.len(),
    ensures
        from <= first_after(events, from, point) <= events.len(),
    decreases events.len() - from,
{
    if from < events.len() && events[from].time <= point {
        lemma_first_after_range(events, from + 1, point);
    }
}

/// The stages tile the events: they follow one another without a gap
/// from the first event to the last.
pub proof fn lemma_stages_tile(events: Seq<AllocRecord>, milestones: Seq<u64>, from: int)
    requires
        0 <= from <= events.len() <= usize::MAX,
    ensures
        tiles(stage_bounds(events, milestones, from), from, events.len() as int),
    decreases milestones.len(),
{
    let ranges = stage_bounds(events, milestones, from);
    if from < events.len() && milestones.len() > 0 {
        let end = first_after(events, from, milestones.last());
        lemma_first_after_range(events, from, milestones.last());
        let rest = stage_bounds(events, milestones.drop_last(), end);
        lemma_stages_tile(events, milestones.drop_last(), end);
        assert(ranges == seq![(from as usize, end as usize)] + rest);
        assert forall|k: int| 0 <= k < ranges.len() implies (#[trigger] ranges[k]).0
            <= ranges[k].1 by {
            if k > 0 {
                assert(ranges[k] == rest[k - 1]);
            }
        }
        assert forall|k: int| 0 <= k < ranges.len() - 1 implies (#[trigger] ranges[k]).1
            == ranges[k + 1].0 by {
            assert(ranges[k + 1] == rest[k]);
            if k > 0 {
                assert(ranges[k] == rest[k - 1]);
            }
        }
        if rest.len() > 0 {
            assert(ranges.last() == rest.last());
        }
    }
}

/// What is known in the middle of a stage.
pub struct StageState {
    /// Pointer to the allocation that made it live, in the map's order.
    pub live: Seq<(u64, usize)>,
    /// Events kept so far, in the order found.
    pub keep: Seq<usize>,
    /// Double allocations found so far.
    pub diagnostics: Seq<Diagnostic>,
}

impl StageState {
    /// The state at the start of a stage.
    pub open spec fn init() -> StageState {
        StageState { live: Seq::empty(), keep: Seq::empty(), diagnostics: Seq::empty() }
    }

    /// The state after the event at `idx`.
    ///
    /// An allocation becomes the live one of its pointer; if the pointer
    /// was live already and `report` is set, that is a finding. A release
    /// ends the live allocation of its pointer: both are kept when their
    /// sizes differ, neither when they agree. A release of a pointer that
    /// is not live is kept.
    pub open spec fn step(self, events: Seq<AllocRecord>, idx: int, stage: int, report: bool) -> StageState {
        let ev = events[idx];
        let found = lookup(self.live, ev.ptr);
        if ev.kind.is_alloc() {
            StageState {
                live: inserted(self.live, ev.ptr, idx as usize),
                keep: self.keep,
                diagnostics: if found.is_some() && report {
                    self.diagnostics.push(
                        Diagnostic::BadAlloc {
                            stage: stage as usize,
                            old: found.unwrap(),
                            new: idx as usize,
                            ptr: ev.ptr,
                        },
                    )
                } else {
                    self.diagnostics
                },
            }
        } else if found.is_some() {
            StageState {
                live: swap_removed(self.live, ev.ptr),
                keep: if events[found.unwrap() as int].size != ev.size {
                    self.keep.push(found.unwrap()).push(idx as usize)
                } else {
                    self.keep
                },
                diagnostics: self.diagnostics,
            }
        } else {
            StageState { live: self.live, keep: self.keep.push(idx as usize), diagnostics: self.diagnostics }
        }
    }

    /// The state after the events from `lo` up to `hi`.
    pub open spec fn fold(events: Seq<AllocRecord>, lo: int, hi: int, stage: int, report: bool) -> StageState
        decreases hi - lo,
    {
        if hi <= lo {
            StageState::init()
        } else {
            StageState::fold(events, lo, hi - 1, stage, report).step(events, hi - 1, stage, report)
        }
    }

    /// The events that survive the stage, before they are put in order:
    /// those kept on the way, then the allocations still live at its end.
    pub open spec fn survivors(self) -> Seq<usize> {
        self.keep + values_of(self.live)
    }

    /// Every index held lies in the part of the stage seen so far.
    pub open spec fn within(self, lo: int, hi: int) -> bool {
        &&& forall|i: int| 0 <= i < self.live.len() ==> lo <= (#[trigger] self.live[i]).1 < hi
        &&& forall|i: int| 0 <= i < self.keep.len() ==> lo <= #[trigger] self.keep[i] < hi
    }
}

/// The kept events of the stage `stage` of `ranges`, ascending.
pub open spec fn stage_keep(events: Seq<AllocRecord>, ranges: Seq<(usize, usize)>, stage: int) -> Seq<
    usize,
> {
    StageState::fold(
        events,
        ranges[stage].0 as int,
        ranges[stage].1 as int,
        stage,
        stage != ranges.len() - 1,
    ).survivors().sort_by(lower_first())
}

/// The findings of the first `upto` stages. The last stage of a trace
/// reports none.
pub open spec fn split_findings(events: Seq<AllocRecord>, ranges: Seq<(usize, usize)>, upto: int) -> Seq<
    Diagnostic,
>
    decreases upto,
{
    if upto <= 0 {
        Seq::empty()
    } else {
        split_findings(events, ranges, upto - 1) + StageState::fold(
            events,
            ranges[upto - 1].0 as int,
            ranges[upto - 1].1 as int,
            upto - 1,
            upto - 1 != ranges.len() - 1,
        ).diagnostics
    }
}

/// A step keeps every index inside the part of the stage seen.
pub proof fn lemma_step_within(st: StageState, events: Seq<AllocRecord>, lo: int, idx: int, stage: int, report: bool)
    requires
        st.within(lo, idx),
        0 <= lo <= idx < events.len() <= usize::MAX,
    ensures
        st.step(events, idx, stage, report).within(lo, idx + 1),
{
    let ev = events[idx];
    lemma_position(st.live, ev.ptr);
    let next = st.step(events, idx, stage, report);
    if has_key(st.live, ev.ptr) {
        let at = position(st.live, ev.ptr);
        assert(lo <= st.live[at].1 < idx);
    }
    assert forall|i: int| 0 <= i < next.live.len() implies lo <= (#[trigger] next.live[i]).1 < idx
        + 1 by {
        if ev.kind.is_alloc() {
            if has_key(st.live, ev.ptr) {
                if i != position(st.live, ev.ptr) {
                    assert(next.live[i] == st.live[i]);
                }
            } else {
                if i < st.live.len() {
                    assert(next.live[i] == st.live[i]);
                }
            }
        } else if has_key(st.live, ev.ptr) {
            if i != position(st.live, ev.ptr) {
                assert(next.live[i] == st.live[i]);
            } else {
                assert(next.live[i] == st.live.last());
            }
        } else {
            assert(next.live[i] == st.live[i]);
        }
    }
    assert forall|i: int| 0 <= i < next.keep.len() implies lo <= #[trigger] next.keep[i] < idx + 1 by {
        if i < st.keep.len() {
            assert(next.keep[i] == st.keep[i]);
        }
    }
}

/// Finds, in events sorted by time, where those later than `point` begin,
/// from `from` on.
fn partition_after(events: &Vec<AllocRecord>, from: usize, point: u64) -> (mid: usize)
    requires
        from <= events@.len(),
        sorted_by_time(events@),
    ensures
        mid == first_after(events@, from as int, point),
        from <= mid <= events@.len(),
{
    let mut lo: usize = from;
    let mut hi: usize = events.len();
    while lo < hi
        invariant
            from <= lo <= hi <= events@.len(),
            sorted_by_time(events@),
            forall|k: int| from <= k < lo ==> (#[trigger] events@[k]).time <= point,
            forall|k: int| hi <= k < events@.len() ==> (#[trigger] events@[k]).time > point,
        decreases hi - lo,
    {
        let mid: usize = lo + (hi - lo) / 2;
        if events[mid].time <= point {
            assert forall|k: int| from <= k < mid + 1 implies (#[trigger] events@[k]).time
                <= point by {
                if k < mid {
                    assert(events@[k].time <= events@[mid as int].time);
                }
            }
            lo = mid + 1;
        } else {
            assert forall|k: int| mid <= k < events@.len() implies (#[trigger] events@[k]).time
                > point by {
                if k > mid {
                    assert(events@[mid as int].time <= events@[k].time);
                }
            }
            hi = mid;
        }
    }
    proof {
        lemma_first_after(events@, from as int, lo as int, point);
    }
    lo
}

/// Where every event from `from` up to `mid` is no later than `point` and
/// the one at `mid`, if any, is later, `mid` is the first one after.
pub proof fn lemma_first_after(events: Seq<AllocRecord>, from: int, mid: int, point: u64)
    requires
        0 <= from <= mid <= events.len(),
        forall|k: int| from <= k < mid ==> (#[trigger] events[k]).time <= point,
        mid < events.len() ==> events[mid].time > point,
    ensures
        first_after(events, from, point) == mid,
    decreases mid - from,
{
    if from < mid {
        assert(events[from].time <= point);
        lemma_first_after(events, from + 1, mid, point);
    }
}

/// Cancels the matched allocations of one stage and returns the events
/// that survive, ascending. Double allocations are added to
/// `diagnostics` when `report` is set.
fn cancel_stage(
    events: &Vec<AllocRecord>,
    stage: usize,
    lo: usize,
    hi: usize,
    report: bool,
    diagnostics: &mut Vec<Diagnostic>,
) -> (keep: Vec<usize>)
    requires
        lo <= hi <= events@.len(),
    ensures
        keep@ == StageState::fold(
            events@,
            lo as int,
            hi as int,
            stage as int,
            report,
        ).survivors().sort_by(lower_first()),
        final(diagnostics)@ == old(diagnostics)@ + StageState::fold(
            events@,
            lo as int,
            hi as int,
            stage as int,
            report,
        ).diagnostics,
        forall|i: int| 0 <= i < keep@.len() ==> lo <= #[trigger] keep@[i] < hi,
{
    let mut ptrmap = ptrmap_new();
    let mut keep: Vec<usize> = Vec::new();
    let mut idx: usize = lo;
    let total: usize = events.len();
    let ghost found0 = diagnostics@;
    assert(diagnostics@ =~= found0 + StageState::init().diagnostics);
    while idx < hi
        invariant
            lo <= idx <= hi <= events@.len(),
            total == events@.len(),
            ptrmap_entries(ptrmap) == StageState::fold(
                events@,
                lo as int,
                idx as int,
                stage as int,
                report,
            ).live,
            keep@ == StageState::fold(events@, lo as int, idx as int, stage as int, report).keep,
            diagnostics@ == found0 + StageState::fold(
                events@,
                lo as int,
                idx as int,
                stage as int,
                report,
            ).diagnostics,
            StageState::fold(events@, lo as int, idx as int, stage as int, report).within(
                lo as int,
                idx as int,
            ),
        decreases hi - idx,
    {
        let ghost st = StageState::fold(events@, lo as int, idx as int, stage as int, report);
        let ghost next = st.step(events@, idx as int, stage as int, report);
        proof {
            lemma_step_within(st, events@, lo as int, idx as int, stage as int, report);
            lemma_position(st.live, events@[idx as int].ptr);
            assert(StageState::fold(events@, lo as int, idx + 1, stage as int, report) == next);
        }
        let ev = events[idx];
        match ev.kind {
            Kind::Alloc | Kind::ReallocAlloc => {
                let prev = ptrmap_insert(&mut ptrmap, ev.ptr, idx);
                if let Some(oldidx) = prev {
                    if report {
                        diagnostics.push(
                            Diagnostic::BadAlloc { stage, old: oldidx, new: idx, ptr: ev.ptr },
                        );
                    }
                }
                assert(diagnostics@ =~= found0 + next.diagnostics);
            },
            _ => {
                match ptrmap_swap_remove(&mut ptrmap, ev.ptr) {
                    Some(oldidx) => {
                        assert(lo <= oldidx < idx);
                        if events[oldidx].size != ev.size {
                            keep.push(oldidx);
                            keep.push(idx);
                        }
                    },
                    None => {
                        keep.push(idx);
                    },
                }
            },
        }
        idx = idx + 1;
    }
    let ghost end = StageState::fold(events@, lo as int, hi as int, stage as int, report);
    let mut rest = ptrmap_values(&ptrmap);
    keep.append(&mut rest);
    assert(keep@ == end.survivors());
    let ghost unsorted = keep@;
    sort_indices(&mut keep);
    proof {
        lemma_lower_first_total();
        unsorted.lemma_sort_by_ensures(lower_first());
        vstd::seq_lib::lemma_sorted_unique(keep@, unsorted.sort_by(lower_first()), lower_first());
        assert forall|i: int| 0 <= i < keep@.len() implies lo <= #[trigger] keep@[i] < hi by {
            let x = keep@[i];
            assert(keep@.contains(x));
            assert(unsorted.contains(x));
            let j = choose|j: int| 0 <= j < unsorted.len() && unsorted[j] == x;
            if j < end.keep.len() {
                assert(unsorted[j] == end.keep[j]);
            } else {
                assert(unsorted[j] == end.live[j - end.keep.len()].1);
            }
        }
    }
    keep
}

impl MemoryAnalyzer {
    /// Orders the events by time, cuts them into stages at the
    /// milestones and cancels, inside each stage, every release against
    /// the latest allocation of its pointer when their sizes agree.
    ///
    /// The stages are returned in the order of time; they tile the
    /// events. Each holds, ascending, the events of its range that
    /// survive: a release with nothing of its size to cancel against,
    /// an allocation released at another size, and an allocation that
    /// nothing touches again before the stage ends. The stack of every
    /// thread is dropped, and the milestones that ended a stage are used
    /// up.
    pub fn split_and_cut(&mut self) -> (r: StageResult)
        requires
            old(self)@.wf(),
        ensures
            final(self)@.wf(),
            final(self)@.milestone == old(self)@.milestone,
            final(self)@.stacklist == old(self)@.stacklist,
            final(self)@.stacks == Map::<u32, Seq<u32>>::empty(),
            is_stable_time_sort(old(self)@.events, final(self)@.events),
            r.ranges@ == stage_bounds(
                final(self)@.events,
                old(self)@.milestones.sort_by(later_first()),
                0,
            ),
            final(self)@.milestones == milestones_left(
                final(self)@.events,
                old(self)@.milestones.sort_by(later_first()),
                0,
            ),
            r.list@.len() == r.ranges@.len(),
            forall|s: int|
                0 <= s < r.list@.len() ==> (#[trigger] r.list@[s])@ == stage_keep(
                    final(self)@.events,
                    r.ranges@,
                    s,
                ),
            r.diagnostics@ == split_findings(final(self)@.events, r.ranges@, r.ranges@.len() as int),
            r.fits(final(self)@.events.len() as int),
            tiles(r.ranges@, 0, final(self)@.events.len() as int),
            forall|s: int, i: int, j: int|
                0 <= s < r.list@.len() && 0 <= i < j < r.list@[s]@.len() ==> #[trigger] r.list@[s]@[i]
                    < #[trigger] r.list@[s]@[j],
            forall|s: int, x: int|
                0 <= s < r.list@.len() && r.ranges@[s].0 <= x < r.ranges@[s].1 ==> (r.list@[s]@.contains(
                    x as usize,
                ) <==> #[trigger] survives(
                    final(self)@.events,
                    r.ranges@[s].0 as int,
                    r.ranges@[s].1 as int,
                    x,
                )),
    {
        self.threads = HashMap::new();
        sort_times_descending(&mut self.milestones);
        let ghost sorted = self.milestones@;
        let ghost events0 = self.alloc_event@;
        sort_events_by_time(&mut self.alloc_event);
        let ghost events = self.alloc_event@;
        proof {
            broadcast use vstd::seq_lib::group_to_multiset_ensures;

            assert forall|i: int| 0 <= i < events.len() implies (#[trigger] events[i]).stack_start
                <= events[i].stack_end <= self.stacklist@.len() by {
                let x = events[i];
                assert(events.contains(x));
                assert(events.to_multiset().count(x) > 0);
                assert(events0.to_multiset().count(x) > 0);
                assert(events0.contains(x));
                let j = choose|j: int| 0 <= j < events0.len() && events0[j] == x;
                assert(events0[j].stack_start <= events0[j].stack_end);
            }
            assert(self@.stacks =~= Map::<u32, Seq<u32>>::empty());
        }
        let n: usize = self.alloc_event.len();
        let mut ranges: Vec<(usize, usize)> = Vec::new();
        let mut prev: usize = 0;
        while prev < n
            invariant
                prev <= n,
                n == events.len(),
                self.alloc_event@ == events,
                sorted_by_time(events),
                stage_bounds(events, sorted, 0) == ranges@ + stage_bounds(
                    events,
                    self.milestones@,
                    prev as int,
                ),
                milestones_left(events, sorted, 0) == milestones_left(
                    events,
                    self.milestones@,
                    prev as int,
                ),
                forall|k: int|
                    0 <= k < ranges@.len() ==> (#[trigger] ranges@[k]).0 <= ranges@[k].1 <= n,
                self.stacklist@ == old(self).stacklist@,
                self.milestone_func_id == old(self).milestone_func_id,
                self.threads@ =~= Map::<u32, Vec<u32>>::empty(),
            decreases n - prev, self.milestones@.len(),
        {
            let ghost before = self.milestones@;
            match self.milestones.pop() {
                Some(point) => {
                    let end = partition_after(&self.alloc_event, prev, point);
                    ranges.push((prev, end));
                    proof {
                        assert(before.drop_last() =~= self.milestones@);
                        assert(ranges@ + stage_bounds(events, self.milestones@, end as int)
                            =~= ranges@.drop_last() + stage_bounds(events, before, prev as int));
                    }
                    prev = end;
                },
                None => {
                    ranges.push((prev, n));
                    proof {
                        assert(ranges@ + stage_bounds(events, self.milestones@, n as int)
                            =~= ranges@.drop_last() + stage_bounds(events, before, prev as int));
                    }
                    prev = n;
                },
            }
        }
        proof {
            lemma_stages_tile(events, sorted, 0);
        }
        let count: usize = ranges.len();
        let mut list: Vec<Vec<usize>> = Vec::new();
        let mut diagnostics: Vec<Diagnostic> = Vec::new();
        let mut stage: usize = 0;
        while stage < count
            invariant
                stage <= count,
                count == ranges@.len(),
                n == events.len(),
                self.alloc_event@ == events,
                list@.len() == stage,
                forall|k: int|
                    0 <= k < ranges@.len() ==> (#[trigger] ranges@[k]).0 <= ranges@[k].1 <= n,
                forall|s: int|
                    0 <= s < stage ==> (#[trigger] list@[s])@ == stage_keep(events, ranges@, s),
                forall|s: int, i: int|
                    0 <= s < stage && 0 <= i < list@[s]@.len() ==> #[trigger] list@[s]@[i] < n,
                forall|s: int, i: int, j: int|
                    0 <= s < stage && 0 <= i < j < list@[s]@.len() ==> #[trigger] list@[s]@[i]
                        < #[trigger] list@[s]@[j],
                forall|s: int, x: int|
                    0 <= s < stage && ranges@[s].0 <= x < ranges@[s].1 ==> (list@[s]@.contains(
                        x as usize,
                    ) <==> #[trigger] survives(
                        events,
                        ranges@[s].0 as int,
                        ranges@[s].1 as int,
                        x,
                    )),
                diagnostics@ == split_findings(events, ranges@, stage as int),
            decreases count - stage,
        {
            let range = ranges[stage];
            let report = stage + 1 != count;
            let keep = cancel_stage(
                &self.alloc_event,
                stage,
                range.0,
                range.1,
                report,
                &mut diagnostics,
            );
            let ghost before = list@;
            list.push(keep);
            proof {
                lemma_stage_keep_is_direct(events, ranges@, stage as int);
                let kept = stage_keep(events, ranges@, stage as int);
                assert(list@[stage as int]@ == kept);
                assert forall|s: int, i: int, j: int|
                    0 <= s < stage + 1 && 0 <= i < j < list@[s]@.len() implies #[trigger] list@[s]@[i]
                        < #[trigger] list@[s]@[j] by {
                    if s < stage {
                        assert(list@[s] == before[s]);
                    } else {
                        assert(kept[i] < kept[j]);
                    }
                }
            }
            stage = stage + 1;
        }
        StageResult { list, ranges, diagnostics }
    }
}

/// No event strictly between `from` and `to` touches the pointer.
pub open spec fn untouched_between(events: Seq<AllocRecord>, ptr: u64, from: int, to: int) -> bool {
    forall|m: int| from < m < to ==> (#[trigger] events[m]).ptr != ptr
}

/// The allocation at `j` is followed, before `hi`, by a release of the
/// same pointer and size, with no event on that pointer between them.
pub open spec fn alloc_matched(events: Seq<AllocRecord>, j: int, hi: int) -> bool {
    exists|i: int|
        j < i < hi && !(#[trigger] events[i]).kind.is_alloc() && events[i].ptr == events[j].ptr
            && events[i].size == events[j].size && untouched_between(events, events[j].ptr, j, i)
}

/// The release at `i` is preceded, from `lo` on, by an allocation of the
/// same pointer, with no event on that pointer between them.
pub open spec fn release_matched(events: Seq<AllocRecord>, i: int, lo: int) -> bool {
    exists|j: int|
        lo <= j < i && (#[trigger] events[j]).kind.is_alloc() && events[j].ptr == events[i].ptr
            && untouched_between(events, events[i].ptr, j, i)
}

/// Every allocation of the stage is matched by a release of equal size,
/// and every release follows an allocation of its pointer.
pub open spec fn all_matched(events: Seq<AllocRecord>, lo: int, hi: int) -> bool {
    forall|k: int|
        lo <= k < hi ==> if (#[trigger] events[k]).kind.is_alloc() {
            alloc_matched(events, k, hi)
        } else {
            release_matched(events, k, lo)
        }
}

/// Every live entry is an allocation of its pointer that nothing has
/// touched since.
pub open spec fn live_sound(events: Seq<AllocRecord>, live: Seq<(u64, usize)>, lo: int, upto: int) -> bool {
    forall|i: int|
        0 <= i < live.len() ==> {
            let j = (#[trigger] live[i]).1 as int;
            &&& lo <= j < upto
            &&& events[j].kind.is_alloc()
            &&& events[j].ptr == live[i].0
            &&& untouched_between(events, live[i].0, j, upto)
        }
}

/// Every allocation that nothing has touched since is live.
pub open spec fn live_complete(events: Seq<AllocRecord>, live: Seq<(u64, usize)>, lo: int, upto: int) -> bool {
    forall|j: int|
        lo <= j < upto && (#[trigger] events[j]).kind.is_alloc() && untouched_between(
            events,
            events[j].ptr,
            j,
            upto,
        ) ==> lookup(live, events[j].ptr) == Some(j as usize)
}

/// An allocation at `k` keeps the live map sound and complete.
pub proof fn lemma_live_after_alloc(events: Seq<AllocRecord>, live: Seq<(u64, usize)>, lo: int, k: int)
    requires
        0 <= lo <= k < events.len() <= usize::MAX,
        keys_distinct(live),
        live_sound(events, live, lo, k),
        live_complete(events, live, lo, k),
    ensures
        keys_distinct(inserted(live, events[k].ptr, k as usize)),
        events[k].kind.is_alloc() ==> live_sound(
            events,
            inserted(live, events[k].ptr, k as usize),
            lo,
            k + 1,
        ),
        live_complete(events, inserted(live, events[k].ptr, k as usize), lo, k + 1),
{
    let ptr = events[k].ptr;
    let next = inserted(live, ptr, k as usize);
    lemma_inserted(live, ptr, k as usize, ptr);
    if events[k].kind.is_alloc() {
        assert forall|i: int| 0 <= i < next.len() implies {
            let j = (#[trigger] next[i]).1 as int;
            &&& lo <= j < k + 1
            &&& events[j].kind.is_alloc()
            &&& events[j].ptr == next[i].0
            &&& untouched_between(events, next[i].0, j, k + 1)
        } by {
            let entry = next[i];
            lemma_lookup_entry(next, i);
            lemma_inserted(live, ptr, k as usize, entry.0);
            if entry.0 != ptr {
                lemma_position(live, entry.0);
                let at = position(live, entry.0);
                assert(live[at].0 == entry.0 && live[at].1 == entry.1);
                assert(untouched_between(events, entry.0, live[at].1 as int, k));
            }
        }
    }
    assert forall|j: int|
        lo <= j < k + 1 && (#[trigger] events[j]).kind.is_alloc() && untouched_between(
            events,
            events[j].ptr,
            j,
            k + 1,
        ) implies lookup(next, events[j].ptr) == Some(j as usize) by {
        lemma_inserted(live, ptr, k as usize, events[j].ptr);
        if j < k {
            assert(events[k].ptr != events[j].ptr);
            assert(untouched_between(events, events[j].ptr, j, k));
        }
    }
}

/// A release at `k` keeps the live map sound and complete.
pub proof fn lemma_live_after_release(events: Seq<AllocRecord>, live: Seq<(u64, usize)>, lo: int, k: int)
    requires
        0 <= lo <= k < events.len() <= usize::MAX,
        !events[k].kind.is_alloc(),
        keys_distinct(live),
        live_sound(events, live, lo, k),
        live_complete(events, live, lo, k),
    ensures
        keys_distinct(swap_removed(live, events[k].ptr)),
        live_sound(events, swap_removed(live, events[k].ptr), lo, k + 1),
        live_complete(events, swap_removed(live, events[k].ptr), lo, k + 1),
{
    let ptr = events[k].ptr;
    let next = swap_removed(live, ptr);
    lemma_swap_removed(live, ptr, ptr);
    assert forall|i: int| 0 <= i < next.len() implies {
        let j = (#[trigger] next[i]).1 as int;
        &&& lo <= j < k + 1
        &&& events[j].kind.is_alloc()
        &&& events[j].ptr == next[i].0
        &&& untouched_between(events, next[i].0, j, k + 1)
    } by {
        let entry = next[i];
        lemma_lookup_entry(next, i);
        lemma_swap_removed(live, ptr, entry.0);
        lemma_position(live, entry.0);
        let at = position(live, entry.0);
        assert(live[at].0 == entry.0 && live[at].1 == entry.1);
        assert(untouched_between(events, entry.0, live[at].1 as int, k));
    }
    assert forall|j: int|
        lo <= j < k + 1 && (#[trigger] events[j]).kind.is_alloc() && untouched_between(
            events,
            events[j].ptr,
            j,
            k + 1,
        ) implies lookup(next, events[j].ptr) == Some(j as usize) by {
        lemma_swap_removed(live, ptr, events[j].ptr);
        assert(events[k].ptr != events[j].ptr);
        assert(untouched_between(events, events[j].ptr, j, k));
    }
}

/// A matched release at `k` finds its allocation live, at equal size.
proof fn lemma_release_finds_match(events: Seq<AllocRecord>, live: Seq<(u64, usize)>, lo: int, hi: int, k: int)
    requires
        0 <= lo <= k < hi <= events.len() <= usize::MAX,
        !events[k].kind.is_alloc(),
        all_matched(events, lo, hi),
        live_complete(events, live, lo, k),
    ensures
        lookup(live, events[k].ptr).is_some(),
        events[lookup(live, events[k].ptr).unwrap() as int].size == events[k].size,
{
    let ptr = events[k].ptr;
    assert(release_matched(events, k, lo));
    let j = choose|j: int|
        lo <= j < k && (#[trigger] events[j]).kind.is_alloc() && events[j].ptr == ptr
            && untouched_between(events, ptr, j, k);
    assert(lookup(live, ptr) == Some(j as usize));
    assert(alloc_matched(events, j, hi));
    let i = choose|i: int|
        j < i < hi && !(#[trigger] events[i]).kind.is_alloc() && events[i].ptr == events[j].ptr
            && events[i].size == events[j].size && untouched_between(events, events[j].ptr, j, i);
    if i < k {
        assert(events[i].ptr != ptr);
    } else if i > k {
        assert(events[k].ptr != events[j].ptr);
    }
}

/// In a stage where everything is matched, nothing is kept on the way
/// and the live map holds exactly the allocations not yet released.
proof fn lemma_matched_prefix(events: Seq<AllocRecord>, lo: int, hi: int, upto: int, stage: int, report: bool)
    requires
        0 <= lo <= upto <= hi <= events.len() <= usize::MAX,
        all_matched(events, lo, hi),
    ensures
        StageState::fold(events, lo, upto, stage, report).keep.len() == 0,
        keys_distinct(StageState::fold(events, lo, upto, stage, report).live),
        live_sound(events, StageState::fold(events, lo, upto, stage, report).live, lo, upto),
        live_complete(events, StageState::fold(events, lo, upto, stage, report).live, lo, upto),
    decreases upto - lo,
{
    if upto > lo {
        let k = upto - 1;
        lemma_matched_prefix(events, lo, hi, k, stage, report);
        let st = StageState::fold(events, lo, k, stage, report);
        let next = st.step(events, k, stage, report);
        assert(StageState::fold(events, lo, upto, stage, report) == next);
        if events[k].kind.is_alloc() {
            lemma_live_after_alloc(events, st.live, lo, k);
        } else {
            lemma_release_finds_match(events, st.live, lo, hi, k);
            lemma_live_after_release(events, st.live, lo, k);
        }
    }
}

/// A stage in which every allocation is released again at equal size,
/// and every release follows an allocation of its pointer, keeps no
/// event at all.
pub proof fn lemma_matched_stage_keeps_nothing(
    events: Seq<AllocRecord>,
    lo: int,
    hi: int,
    stage: int,
    report: bool,
)
    requires
        0 <= lo <= hi <= events.len() <= usize::MAX,
        all_matched(events, lo, hi),
    ensures
        StageState::fold(events, lo, hi, stage, report).survivors() == Seq::<usize>::empty(),
        StageState::fold(events, lo, hi, stage, report).survivors().sort_by(lower_first())
            == Seq::<usize>::empty(),
{
    lemma_matched_prefix(events, lo, hi, hi, stage, report);
    let end = StageState::fold(events, lo, hi, stage, report);
    if end.live.len() > 0 {
        let j = end.live[0].1 as int;
        assert(alloc_matched(events, j, hi));
        let i = choose|i: int|
            j < i < hi && !(#[trigger] events[i]).kind.is_alloc() && events[i].ptr == events[j].ptr
                && events[i].size == events[j].size && untouched_between(
                events,
                events[j].ptr,
                j,
                i,
            );
        assert(events[i].ptr != end.live[0].0);
    }
    assert(end.survivors() =~= Seq::<usize>::empty());
    lemma_lower_first_total();
    end.survivors().lemma_sort_by_ensures(lower_first());
    end.survivors().to_multiset_ensures();
    end.survivors().sort_by(lower_first()).to_multiset_ensures();
    assert(end.survivors().sort_by(lower_first()).len() == 0);
    assert(end.survivors().sort_by(lower_first()) =~= Seq::<usize>::empty());
}

} // verus!
