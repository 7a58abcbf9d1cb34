//! What a stage keeps, said without the pointer map: an event survives
//! its stage for what comes before and after it on its pointer.

use super::ptrmap::{
    keys_distinct, lemma_inserted, lemma_lookup_entry, lemma_position, lemma_swap_removed,
    lookup, position, values_of,
};
use super::sorting::{lemma_lower_first_total, lower_first};
use super::split::{
    lemma_live_after_alloc, lemma_live_after_release, live_complete, live_sound, stage_keep,
    untouched_between, StageState,
};
use super::AllocRecord;
use vstd::prelude::*;

verus! {

/// `j` and `i` are two events on one pointer with no event on that
/// pointer between them.
pub open spec fn consecutive(events: Seq<AllocRecord>, j: int, i: int) -> bool {
    j < i && events[j].ptr == events[i].ptr && untouched_between(events, events[i].ptr, j, i)
}

/// The release at `x` has nothing to cancel against: from `lo` on no
/// event came before it on its pointer, or the latest one was a release
/// too, or an allocation of another size.
pub open spec fn release_kept(events: Seq<AllocRecord>, lo: int, x: int) -> bool {
    untouched_between(events, events[x].ptr, lo - 1, x) || exists|j: int|
        lo <= j < x && #[trigger] consecutive(events, j, x) && (!events[j].kind.is_alloc()
            || events[j].size != events[x].size)
}

/// The allocation at `x` is released before `upto` at another size.
pub open spec fn alloc_kept(events: Seq<AllocRecord>, x: int, upto: int) -> bool {
    exists|i: int|
        x < i < upto && #[trigger] consecutive(events, x, i) && !events[i].kind.is_alloc()
            && events[i].size != events[x].size
}

/// The event at `x` is kept by what the stage has seen up to `upto`.
pub open spec fn kept_on_the_way(events: Seq<AllocRecord>, lo: int, upto: int, x: int) -> bool {
    lo <= x < upto && if events[x].kind.is_alloc() {
        alloc_kept(events, x, upto)
    } else {
        release_kept(events, lo, x)
    }
}

/// The allocation at `x` is carried out of the stage: nothing touches
/// its pointer up to `hi`.
pub open spec fn carried(events: Seq<AllocRecord>, hi: int, x: int) -> bool {
    events[x].kind.is_alloc() && untouched_between(events, events[x].ptr, x, hi)
}

/// The event at `x` survives the stage from `lo` to `hi`.
pub open spec fn survives(events: Seq<AllocRecord>, lo: int, hi: int, x: int) -> bool {
    lo <= x < hi && (kept_on_the_way(events, lo, hi, x) || carried(events, hi, x))
}

/// The latest event before `upto`, from `lo` on, on the pointer, or
/// `lo - 1` when there is none.
pub open spec fn latest_on(events: Seq<AllocRecord>, ptr: u64, lo: int, upto: int) -> int
    decreases upto - lo,
{
    if upto <= lo {
        lo - 1
    } else if events[upto - 1].ptr == ptr {
        upto - 1
    } else {
        latest_on(events, ptr, lo, upto - 1)
    }
}

/// What the latest event on a pointer is.
pub proof fn lemma_latest_on(events: Seq<AllocRecord>, ptr: u64, lo: int, upto: int)
    requires
        lo <= upto,
    ensures
        lo - 1 <= latest_on(events, ptr, lo, upto) < upto,
        untouched_between(events, ptr, latest_on(events, ptr, lo, upto), upto),
        latest_on(events, ptr, lo, upto) >= lo ==> events[latest_on(events, ptr, lo, upto)].ptr
            == ptr,
    decreases upto - lo,
{
    if upto > lo && events[upto - 1].ptr != ptr {
        lemma_latest_on(events, ptr, lo, upto - 1);
    }
}

/// The pointer map of a stage holds, for each pointer, its latest event
/// if that is an allocation.
pub proof fn lemma_live_is_latest_alloc(
    events: Seq<AllocRecord>,
    lo: int,
    upto: int,
    stage: int,
    report: bool,
)
    requires
        0 <= lo <= upto <= events.len() <= usize::MAX,
    ensures
        keys_distinct(StageState::fold(events, lo, upto, stage, report).live),
        live_sound(events, StageState::fold(events, lo, upto, stage, report).live, lo, upto),
        live_complete(events, StageState::fold(events, lo, upto, stage, report).live, lo, upto),
    decreases upto - lo,
{
    if upto > lo {
        let k = upto - 1;
        lemma_live_is_latest_alloc(events, lo, k, stage, report);
        let st = StageState::fold(events, lo, k, stage, report);
        assert(StageState::fold(events, lo, upto, stage, report) == st.step(
            events,
            k,
            stage,
            report,
        ));
        if events[k].kind.is_alloc() {
            lemma_live_after_alloc(events, st.live, lo, k);
        } else {
            lemma_position(st.live, events[k].ptr);
            lemma_live_after_release(events, st.live, lo, k);
        }
    }
}

/// What a release finds in a pointer map that is sound and complete: the
/// allocation just before it on its pointer, or nothing when the latest
/// event on its pointer is no allocation.
proof fn lemma_release_lookup(events: Seq<AllocRecord>, live: Seq<(u64, usize)>, lo: int, k: int)
    requires
        0 <= lo <= k < events.len() <= usize::MAX,
        keys_distinct(live),
        live_sound(events, live, lo, k),
        live_complete(events, live, lo, k),
    ensures
        match lookup(live, events[k].ptr) {
            Some(j) => lo <= j < k && consecutive(events, j as int, k)
                && events[j as int].kind.is_alloc(),
            None => forall|j: int|
                lo <= j < k && #[trigger] consecutive(events, j, k) ==> !events[j].kind.is_alloc(),
        },
{
    let ptr = events[k].ptr;
    lemma_position(live, ptr);
    match lookup(live, ptr) {
        Some(j) => {
            let at = position(live, ptr);
            assert(live[at].0 == ptr && live[at].1 == j);
        },
        None => {
            assert forall|j: int| lo <= j < k && #[trigger] consecutive(events, j, k) implies
                !events[j].kind.is_alloc() by {
                if events[j].kind.is_alloc() {
                    assert(lookup(live, events[j].ptr) == Some(j as usize));
                }
            }
        },
    }
}

/// Two events that both come just before a third on its pointer are one.
proof fn lemma_one_before(events: Seq<AllocRecord>, a: int, b: int, i: int)
    requires
        consecutive(events, a, i),
        consecutive(events, b, i),
    ensures
        a == b,
{
    if a < b {
        assert(events[b].ptr != events[i].ptr);
    } else if b < a {
        assert(events[a].ptr != events[i].ptr);
    }
}

/// What a stage has kept on the way.
pub open spec fn keep_is_direct(events: Seq<AllocRecord>, keep: Seq<usize>, lo: int, upto: int) -> bool {
    &&& keep.no_duplicates()
    &&& forall|i: int| 0 <= i < keep.len() ==> lo <= #[trigger] keep[i] < upto
    &&& forall|x: int|
        lo <= x < upto ==> (keep.contains(x as usize) <==> #[trigger] kept_on_the_way(
            events,
            lo,
            upto,
            x,
        ))
}

/// An allocation keeps nothing.
proof fn lemma_keep_after_alloc(events: Seq<AllocRecord>, keep: Seq<usize>, lo: int, k: int)
    requires
        0 <= lo <= k < events.len() <= usize::MAX,
        events[k].kind.is_alloc(),
        keep_is_direct(events, keep, lo, k),
    ensures
        keep_is_direct(events, keep, lo, k + 1),
{
    assert forall|x: int| lo <= x < k + 1 implies (keep.contains(x as usize)
        <==> #[trigger] kept_on_the_way(events, lo, k + 1, x)) by {
        if x == k {
            if keep.contains(k as usize) {
                let i = choose|i: int| 0 <= i < keep.len() && keep[i] == k as usize;
                assert(keep[i] < k);
            }
        } else {
            assert(kept_on_the_way(events, lo, k, x) == keep.contains(x as usize));
            if events[x].kind.is_alloc() {
                if alloc_kept(events, x, k + 1) {
                    let i = choose|i: int|
                        x < i < k + 1 && #[trigger] consecutive(events, x, i)
                            && !events[i].kind.is_alloc() && events[i].size != events[x].size;
                    assert(i < k);
                }
                assert(alloc_kept(events, x, k + 1) == alloc_kept(events, x, k));
            }
        }
    }
}

/// A release that finds nothing to cancel against is kept.
proof fn lemma_keep_after_stray(events: Seq<AllocRecord>, keep: Seq<usize>, lo: int, k: int)
    requires
        0 <= lo <= k < events.len() <= usize::MAX,
        !events[k].kind.is_alloc(),
        keep_is_direct(events, keep, lo, k),
        forall|j: int|
            lo <= j < k && #[trigger] consecutive(events, j, k) ==> !events[j].kind.is_alloc(),
    ensures
        keep_is_direct(events, keep.push(k as usize), lo, k + 1),
{
    let next = keep.push(k as usize);
    let ptr = events[k].ptr;
    assert(next.no_duplicates()) by {
        assert forall|a: int, b: int| 0 <= a < next.len() && 0 <= b < next.len() && a != b implies
            next[a] != next[b] by {
            if a < keep.len() && b < keep.len() {
                assert(keep[a] != keep[b]);
            } else if a < keep.len() {
                assert(keep[a] < k);
            } else {
                assert(keep[b] < k);
            }
        }
    }
    assert(next[keep.len() as int] == k as usize);
    assert(release_kept(events, lo, k)) by {
        lemma_latest_on(events, ptr, lo, k);
        let j = latest_on(events, ptr, lo, k);
        if j >= lo {
            assert(consecutive(events, j, k));
        }
    }
    assert forall|x: int| lo <= x < k + 1 implies (next.contains(x as usize)
        <==> #[trigger] kept_on_the_way(events, lo, k + 1, x)) by {
        if x == k {
            assert(next.contains(k as usize));
        } else {
            assert(kept_on_the_way(events, lo, k, x) == keep.contains(x as usize));
            if keep.contains(x as usize) {
                let i = choose|i: int| 0 <= i < keep.len() && keep[i] == x as usize;
                assert(next[i] == x as usize);
            }
            if next.contains(x as usize) {
                let i = choose|i: int| 0 <= i < next.len() && next[i] == x as usize;
                assert(keep[i] == x as usize);
            }
            if events[x].kind.is_alloc() {
                if alloc_kept(events, x, k + 1) {
                    let i = choose|i: int|
                        x < i < k + 1 && #[trigger] consecutive(events, x, i)
                            && !events[i].kind.is_alloc() && events[i].size != events[x].size;
                    if i == k {
                        assert(!events[x].kind.is_alloc());
                    }
                }
                assert(alloc_kept(events, x, k + 1) == alloc_kept(events, x, k));
            }
        }
    }
}

/// A release that cancels against an allocation of its size keeps
/// nothing.
proof fn lemma_keep_after_match(events: Seq<AllocRecord>, keep: Seq<usize>, lo: int, k: int, j: int)
    requires
        0 <= lo <= j < k < events.len() <= usize::MAX,
        !events[k].kind.is_alloc(),
        events[j].kind.is_alloc(),
        consecutive(events, j, k),
        events[j].size == events[k].size,
        keep_is_direct(events, keep, lo, k),
    ensures
        keep_is_direct(events, keep, lo, k + 1),
{
    assert forall|x: int| lo <= x < k + 1 implies (keep.contains(x as usize)
        <==> #[trigger] kept_on_the_way(events, lo, k + 1, x)) by {
        if x == k {
            if keep.contains(k as usize) {
                let i = choose|i: int| 0 <= i < keep.len() && keep[i] == k as usize;
                assert(keep[i] < k);
            }
            assert(!untouched_between(events, events[k].ptr, lo - 1, k)) by {
                assert(events[j].ptr == events[k].ptr);
            }
            if release_kept(events, lo, k) {
                let b = choose|b: int|
                    lo <= b < k && #[trigger] consecutive(events, b, k) && (
                    !events[b].kind.is_alloc() || events[b].size != events[k].size);
                lemma_one_before(events, b, j, k);
            }
        } else {
            assert(kept_on_the_way(events, lo, k, x) == keep.contains(x as usize));
            if events[x].kind.is_alloc() {
                if alloc_kept(events, x, k + 1) {
                    let i = choose|i: int|
                        x < i < k + 1 && #[trigger] consecutive(events, x, i)
                            && !events[i].kind.is_alloc() && events[i].size != events[x].size;
                    if i == k {
                        lemma_one_before(events, x, j, k);
                    }
                }
                assert(alloc_kept(events, x, k + 1) == alloc_kept(events, x, k));
            }
        }
    }
}

/// A release that meets an allocation of another size keeps both.
proof fn lemma_keep_after_mismatch(events: Seq<AllocRecord>, keep: Seq<usize>, lo: int, k: int, j: int)
    requires
        0 <= lo <= j < k < events.len() <= usize::MAX,
        !events[k].kind.is_alloc(),
        events[j].kind.is_alloc(),
        consecutive(events, j, k),
        events[j].size != events[k].size,
        keep_is_direct(events, keep, lo, k),
    ensures
        keep_is_direct(events, keep.push(j as usize).push(k as usize), lo, k + 1),
{
    let next = keep.push(j as usize).push(k as usize);
    assert(!keep.contains(j as usize)) by {
        if alloc_kept(events, j, k) {
            let i = choose|i: int|
                j < i < k && #[trigger] consecutive(events, j, i) && !events[i].kind.is_alloc()
                    && events[i].size != events[j].size;
            assert(events[i].ptr != events[k].ptr);
        }
        assert(!kept_on_the_way(events, lo, k, j));
    }
    assert(next[keep.len() as int] == j as usize);
    assert(next[keep.len() as int + 1] == k as usize);
    assert(next.no_duplicates()) by {
        assert forall|a: int, b: int| 0 <= a < next.len() && 0 <= b < next.len() && a != b implies
            next[a] != next[b] by {
            if a < keep.len() {
                assert(next[a] == keep[a] && keep[a] < k);
                assert(keep.contains(keep[a]));
            }
            if b < keep.len() {
                assert(next[b] == keep[b] && keep[b] < k);
                assert(keep.contains(keep[b]));
            }
            if a < keep.len() && b < keep.len() {
                assert(keep[a] != keep[b]);
            }
        }
    }
    assert forall|x: int| lo <= x < k + 1 implies (next.contains(x as usize)
        <==> #[trigger] kept_on_the_way(events, lo, k + 1, x)) by {
        if x == k {
            assert(next.contains(k as usize));
            assert(release_kept(events, lo, k));
        } else if x == j {
            assert(next.contains(j as usize));
            assert(alloc_kept(events, j, k + 1));
        } else {
            assert(kept_on_the_way(events, lo, k, x) == keep.contains(x as usize));
            if keep.contains(x as usize) {
                let i = choose|i: int| 0 <= i < keep.len() && keep[i] == x as usize;
                assert(next[i] == x as usize);
            }
            if next.contains(x as usize) {
                let i = choose|i: int| 0 <= i < next.len() && next[i] == x as usize;
                assert(keep[i] == x as usize);
            }
            if events[x].kind.is_alloc() {
                if alloc_kept(events, x, k + 1) {
                    let i = choose|i: int|
                        x < i < k + 1 && #[trigger] consecutive(events, x, i)
                            && !events[i].kind.is_alloc() && events[i].size != events[x].size;
                    if i == k {
                        lemma_one_before(events, x, j, k);
                    }
                }
                assert(alloc_kept(events, x, k + 1) == alloc_kept(events, x, k));
            }
        }
    }
}

/// What a stage has kept after the events from `lo` up to `upto`.
pub proof fn lemma_keep_is_direct(events: Seq<AllocRecord>, lo: int, upto: int, stage: int, report: bool)
    requires
        0 <= lo <= upto <= events.len() <= usize::MAX,
    ensures
        keep_is_direct(events, StageState::fold(events, lo, upto, stage, report).keep, lo, upto),
    decreases upto - lo,
{
    if upto > lo {
        let k = upto - 1;
        lemma_keep_is_direct(events, lo, k, stage, report);
        lemma_live_is_latest_alloc(events, lo, k, stage, report);
        let st = StageState::fold(events, lo, k, stage, report);
        assert(StageState::fold(events, lo, upto, stage, report) == st.step(
            events,
            k,
            stage,
            report,
        ));
        if events[k].kind.is_alloc() {
            lemma_keep_after_alloc(events, st.keep, lo, k);
        } else {
            lemma_release_lookup(events, st.live, lo, k);
            match lookup(st.live, events[k].ptr) {
                Some(j) => {
                    if events[j as int].size != events[k].size {
                        lemma_keep_after_mismatch(events, st.keep, lo, k, j as int);
                    } else {
                        lemma_keep_after_match(events, st.keep, lo, k, j as int);
                    }
                },
                None => {
                    lemma_keep_after_stray(events, st.keep, lo, k);
                },
            }
        }
    } else {
        assert(StageState::fold(events, lo, upto, stage, report).keep =~= Seq::<usize>::empty());
    }
}

/// The events that survive a stage are those that `survives` names, each
/// once: a release with nothing of its size to cancel against, an
/// allocation released at another size, and an allocation that nothing
/// touches again before the stage ends.
pub proof fn lemma_survivors_are_direct(
    events: Seq<AllocRecord>,
    lo: int,
    hi: int,
    stage: int,
    report: bool,
)
    requires
        0 <= lo <= hi <= events.len() <= usize::MAX,
    ensures
        StageState::fold(events, lo, hi, stage, report).survivors().no_duplicates(),
        forall|i: int|
            0 <= i < StageState::fold(events, lo, hi, stage, report).survivors().len() ==> lo
                <= #[trigger] StageState::fold(events, lo, hi, stage, report).survivors()[i] < hi,
        forall|x: int|
            lo <= x < hi ==> (StageState::fold(events, lo, hi, stage, report).survivors().contains(
                x as usize,
            ) <==> #[trigger] survives(events, lo, hi, x)),
{
    let end = StageState::fold(events, lo, hi, stage, report);
    let all = end.survivors();
    let values = values_of(end.live);
    lemma_keep_is_direct(events, lo, hi, stage, report);
    lemma_live_is_latest_alloc(events, lo, hi, stage, report);
    // A live allocation was not kept on the way.
    assert forall|a: int| 0 <= a < values.len() implies lo <= #[trigger] values[a] < hi
        && carried(events, hi, values[a] as int) && !end.keep.contains(values[a]) by {
        let j = end.live[a].1 as int;
        assert(values[a] == end.live[a].1);
        if alloc_kept(events, j, hi) {
            let i = choose|i: int|
                j < i < hi && #[trigger] consecutive(events, j, i) && !events[i].kind.is_alloc()
                    && events[i].size != events[j].size;
            assert(events[i].ptr != end.live[a].0);
        }
        assert(!kept_on_the_way(events, lo, hi, j));
    }
    assert forall|a: int, b: int| 0 <= a < b < values.len() implies values[a] != values[b] by {
        assert(end.live[a].0 != end.live[b].0);
    }
    assert forall|a: int, b: int| 0 <= a < all.len() && 0 <= b < all.len() && a != b implies all[a]
        != all[b] by {
        let n = end.keep.len() as int;
        if a < n && b < n {
            assert(end.keep[a] != end.keep[b]);
        } else if a < n {
            assert(end.keep.contains(all[a]));
            assert(all[b] == values[b - n]);
        } else if b < n {
            assert(end.keep.contains(all[b]));
            assert(all[a] == values[a - n]);
        } else {
            assert(all[a] == values[a - n] && all[b] == values[b - n]);
            if a < b {
                assert(values[a - n] != values[b - n]);
            } else {
                assert(values[b - n] != values[a - n]);
            }
        }
    }
    assert forall|i: int| 0 <= i < all.len() implies lo <= #[trigger] all[i] < hi by {
        let n = end.keep.len() as int;
        if i < n {
            assert(all[i] == end.keep[i]);
        } else {
            assert(all[i] == values[i - n]);
        }
    }
    assert forall|x: int| lo <= x < hi implies (all.contains(x as usize) <==> #[trigger] survives(
        events,
        lo,
        hi,
        x,
    )) by {
        let n = end.keep.len() as int;
        assert(end.keep.contains(x as usize) == kept_on_the_way(events, lo, hi, x));
        if all.contains(x as usize) {
            let i = choose|i: int| 0 <= i < all.len() && all[i] == x as usize;
            if i < n {
                assert(end.keep[i] == x as usize);
            } else {
                assert(values[i - n] == x as usize);
            }
        }
        if end.keep.contains(x as usize) {
            let i = choose|i: int| 0 <= i < end.keep.len() && end.keep[i] == x as usize;
            assert(all[i] == x as usize);
        }
        if carried(events, hi, x) {
            assert(lookup(end.live, events[x].ptr) == Some(x as usize));
            lemma_position(end.live, events[x].ptr);
            let at = position(end.live, events[x].ptr);
            assert(values[at] == x as usize);
            assert(all[n + at] == x as usize);
        }
    }
}

/// The kept events of a stage, as the analyzer returns them: the events
/// of the stage that `survives` names, in ascending order.
pub proof fn lemma_stage_keep_is_direct(
    events: Seq<AllocRecord>,
    ranges: Seq<(usize, usize)>,
    stage: int,
)
    requires
        0 <= stage < ranges.len(),
        ranges[stage].0 <= ranges[stage].1 <= events.len(),
        events.len() <= usize::MAX,
    ensures
        forall|i: int, j: int|
            0 <= i < j < stage_keep(events, ranges, stage).len() ==> stage_keep(
                events,
                ranges,
                stage,
            )[i] < stage_keep(events, ranges, stage)[j],
        forall|i: int|
            0 <= i < stage_keep(events, ranges, stage).len() ==> ranges[stage].0
                <= #[trigger] stage_keep(events, ranges, stage)[i] < ranges[stage].1,
        forall|x: int|
            ranges[stage].0 <= x < ranges[stage].1 ==> (stage_keep(events, ranges, stage).contains(
                x as usize,
            ) <==> #[trigger] survives(events, ranges[stage].0 as int, ranges[stage].1 as int, x)),
{
    let lo = ranges[stage].0 as int;
    let hi = ranges[stage].1 as int;
    let report = stage != ranges.len() - 1;
    let all = StageState::fold(events, lo, hi, stage, report).survivors();
    let sorted = stage_keep(events, ranges, stage);
    lemma_survivors_are_direct(events, lo, hi, stage, report);
    lemma_lower_first_total();
    all.lemma_sort_by_ensures(lower_first());
    all.to_multiset_ensures();
    sorted.to_multiset_ensures();
    all.lemma_multiset_has_no_duplicates();
    sorted.lemma_multiset_has_no_duplicates_conv();
    assert forall|x: usize| sorted.contains(x) <==> all.contains(x) by {
        assert(sorted.to_multiset().count(x) == all.to_multiset().count(x));
    }
    assert forall|i: int, j: int| 0 <= i < j < sorted.len() implies sorted[i] < sorted[j] by {
        assert(lower_first()(sorted[i], sorted[j]));
        assert(sorted[i] != sorted[j]);
    }
    assert forall|i: int| 0 <= i < sorted.len() implies lo <= #[trigger] sorted[i] < hi by {
        assert(sorted.contains(sorted[i]));
        let a = choose|a: int| 0 <= a < all.len() && all[a] == sorted[i];
        assert(lo <= all[a] < hi);
    }
}

} // verus!
