//! The sorts of the analyzer, each done by a library routine.

use super::AllocRecord;
use rayon::slice::ParallelSliceMut;
use vstd::prelude::*;

verus! {

/// Whether the times of the events never descend.
pub open spec fn sorted_by_time(events: Seq<AllocRecord>) -> bool {
    forall|i: int, j: int|
        0 <= i < j < events.len() ==> (#[trigger] events[i]).time <= (#[trigger] events[j]).time
}

/// The events with the given time, in their order.
pub open spec fn at_time(events: Seq<AllocRecord>, time: u64) -> Seq<AllocRecord> {
    events.filter(|e: AllocRecord| e.time == time)
}

/// Whether `after` holds the events of `before` ordered by time, events
/// of equal time in the order that they had.
pub open spec fn is_stable_time_sort(before: Seq<AllocRecord>, after: Seq<AllocRecord>) -> bool {
    &&& sorted_by_time(after)
    &&& after.to_multiset() == before.to_multiset()
    &&& forall|time: u64| #[trigger] at_time(after, time) == at_time(before, time)
}

/// The order of times from latest to earliest.
pub open spec fn later_first() -> spec_fn(u64, u64) -> bool {
    |a: u64, b: u64| a >= b
}

/// The order of indices from lowest to highest.
pub open spec fn lower_first() -> spec_fn(usize, usize) -> bool {
    |a: usize, b: usize| a <= b
}

/// Sorts the events by time, keeping events of equal time in order.
///
/// Calls rayon's `par_sort_by_key` with the time as key, which is
/// documented as a stable sort.
#[verifier::external_body]
pub(crate) fn sort_events_by_time(events: &mut Vec<AllocRecord>)
    ensures
        is_stable_time_sort(old(events)@, final(events)@),
{
    events.par_sort_by_key(|ev| ev.time);
}

/// The order of times from earliest to latest.
pub open spec fn earlier_first() -> spec_fn(u64, u64) -> bool {
    |a: u64, b: u64| a <= b
}

/// Sorts the times from earliest to latest.
///
/// Calls `sort` of the standard library: afterwards the slice holds the
/// same values in ascending order.
#[verifier::external_body]
pub(crate) fn sort_times(times: &mut Vec<u64>)
    ensures
        vstd::relations::sorted_by(final(times)@, earlier_first()),
        final(times)@.to_multiset() == old(times)@.to_multiset(),
{
    times.sort();
}

/// Orders the times from latest to earliest.
pub fn sort_times_descending(times: &mut Vec<u64>)
    ensures
        final(times)@ == old(times)@.sort_by(later_first()),
{
    sort_times(times);
    let ghost ascending = times@;
    let mut out: Vec<u64> = Vec::new();
    let mut i: usize = times.len();
    while i > 0
        invariant
            i <= times@.len(),
            times@ == ascending,
            out@.len() == times@.len() - i,
            forall|k: int| 0 <= k < out@.len() ==> out@[k] == times@[times@.len() - 1 - k],
        decreases i,
    {
        i = i - 1;
        out.push(times[i]);
    }
    *times = out;
    proof {
        assert(times@ =~= ascending.reverse());
        ascending.lemma_reverse_to_multiset();
        assert forall|a: int, b: int| 0 <= a < b < times@.len() implies later_first()(
            times@[a],
            times@[b],
        ) by {
            assert(earlier_first()(
                ascending[ascending.len() - 1 - b],
                ascending[ascending.len() - 1 - a],
            ));
        }
        lemma_later_first_total();
        old(times)@.lemma_sort_by_ensures(later_first());
        vstd::seq_lib::lemma_sorted_unique(
            times@,
            old(times)@.sort_by(later_first()),
            later_first(),
        );
    }
}

/// Sorts the indices from lowest to highest.
///
/// Calls `sort` of the standard library: afterwards the slice holds the
/// same values in ascending order.
#[verifier::external_body]
pub(crate) fn sort_indices(list: &mut Vec<usize>)
    ensures
        vstd::relations::sorted_by(final(list)@, lower_first()),
        final(list)@.to_multiset() == old(list)@.to_multiset(),
{
    list.sort();
}

/// Ascending order of indices is a total order.
pub proof fn lemma_lower_first_total()
    ensures
        vstd::relations::total_ordering(lower_first()),
{
}

/// Descending order of times is a total order.
pub proof fn lemma_later_first_total()
    ensures
        vstd::relations::total_ordering(later_first()),
{
}

} // verus!
