//! Questions asked of an analyzer once it holds the events of a trace.

use super::analyze::AnalyzeResult;
use super::ptrmap::{ptrmap_entries, ptrmap_values, values_of};
use super::{AllocRecord, MemoryAnalyzer};
use crate::layout::Kind;
use crate::xray::XRayInstrMap;
use vstd::prelude::*;

verus! {

/// The events whose pointer is `ptr`, among the first `upto`, ascending.
pub open spec fn events_of_ptr(events: Seq<AllocRecord>, ptr: u64, upto: int) -> Seq<usize>
    decreases upto,
{
    if upto <= 0 {
        Seq::empty()
    } else if events[upto - 1].ptr == ptr {
        events_of_ptr(events, ptr, upto - 1).push((upto - 1) as usize)
    } else {
        events_of_ptr(events, ptr, upto - 1)
    }
}

/// One flamegraph to write: the stage it shows, if it shows one of
/// several, and the events that each give a line.
pub struct FlameTarget {
    pub stage: Option<usize>,
    pub events: Vec<usize>,
}

/// What a list of flamegraph targets holds.
pub open spec fn targets_view(targets: Seq<FlameTarget>) -> Seq<(Option<usize>, Seq<usize>)> {
    Seq::new(targets.len(), |k: int| (targets[k].stage, targets[k].events@))
}

/// The name of an allocator event kind, as shown to the user.
pub open spec fn kind_name(kind: Kind) -> Seq<char>
    recommends
        !kind.is_call(),
{
    match kind {
        Kind::Alloc => "alloc"@,
        Kind::Dealloc => "free"@,
        Kind::ReallocAlloc => "r/alloc"@,
        _ => "r/free"@,
    }
}

/// The name of an allocator event kind.
pub fn kind_to_str(kind: Kind) -> (name: &'static str)
    requires
        !kind.is_call(),
    ensures
        name@ == kind_name(kind),
{
    match kind {
        Kind::Alloc => "alloc",
        Kind::Dealloc => "free",
        Kind::ReallocAlloc => "r/alloc",
        _ => "r/free",
    }
}

impl MemoryAnalyzer {
    /// The number of allocator events held.
    pub fn len(&self) -> (n: usize)
        ensures
            n == self@.events.len(),
    {
        self.alloc_event.len()
    }

    /// The allocator event with the given id, if there is one.
    pub fn event(&self, event_id: usize) -> (r: Option<AllocRecord>)
        ensures
            r.is_some() <==> event_id < self@.events.len(),
            r.is_some() ==> r.unwrap() == self@.events[event_id as int],
    {
        if event_id < self.alloc_event.len() {
            Some(self.alloc_event[event_id])
        } else {
            None
        }
    }

    /// The milestone times held.
    pub fn milestones(&self) -> (r: &Vec<u64>)
        ensures
            r@ == self@.milestones,
    {
        &self.milestones
    }

    /// The flat list that the stack ranges point into.
    pub fn stacklist(&self) -> (r: &Vec<u32>)
        ensures
            r@ == self@.stacklist,
    {
        &self.stacklist
    }

    /// Every event on the pointer of the given event, ascending: the whole
    /// life of an allocation, through its reallocations.
    pub fn track(&self, event_id: usize) -> (list: Vec<usize>)
        requires
            event_id < self@.events.len(),
        ensures
            list@ == events_of_ptr(
                self@.events,
                self@.events[event_id as int].ptr,
                self@.events.len() as int,
            ),
    {
        let ptr = self.alloc_event[event_id].ptr;
        let mut list: Vec<usize> = Vec::new();
        let mut id: usize = 0;
        while id < self.alloc_event.len()
            invariant
                id <= self.alloc_event@.len(),
                list@ == events_of_ptr(self.alloc_event@, ptr, id as int),
            decreases self.alloc_event@.len() - id,
        {
            if self.alloc_event[id].ptr == ptr {
                list.push(id);
            }
            id = id + 1;
        }
        list
    }

    /// The call stack recorded with an event, outermost frame first, as
    /// sled indices.
    pub fn stack(&self, event_id: usize) -> (frames: Vec<u32>)
        requires
            self@.wf(),
            event_id < self@.events.len(),
        ensures
            frames@ == self@.stack_at(event_id as int),
    {
        let ev = self.alloc_event[event_id];
        let mut frames: Vec<u32> = Vec::new();
        let mut at: usize = ev.stack_start;
        while at < ev.stack_end
            invariant
                ev.stack_start <= at <= ev.stack_end <= self.stacklist@.len(),
                frames@ == self.stacklist@.subrange(ev.stack_start as int, at as int),
            decreases ev.stack_end - at,
        {
            frames.push(self.stacklist[at]);
            assert(frames@ =~= self.stacklist@.subrange(ev.stack_start as int, at + 1));
            at = at + 1;
        }
        frames
    }

    /// The flamegraphs to write for an analysis: one for each selected
    /// stage, named by the stage when several were selected; or, when
    /// none was selected, one for the leaks.
    pub fn flamegraph_targets(analysis: &AnalyzeResult) -> (targets: Vec<FlameTarget>)
        ensures
            analysis.selectmap@.len() == 0 ==> targets_view(targets@) == seq![
                (None::<usize>, values_of(ptrmap_entries(analysis.leakmap))),
            ],
            analysis.selectmap@.len() > 0 ==> targets_view(targets@) == Seq::new(
                analysis.selectmap@.len(),
                |k: int|
                    (
                        if analysis.selectmap@.len() == 1 {
                            None::<usize>
                        } else {
                            Some(analysis.selectmap@[k].0)
                        },
                        analysis.selectmap@[k].1@,
                    ),
            ),
    {
        let mut targets: Vec<FlameTarget> = Vec::new();
        let count = analysis.selectmap.len();
        if count == 0 {
            targets.push(FlameTarget { stage: None, events: ptrmap_values(&analysis.leakmap) });
            assert(targets_view(targets@) =~= seq![
                (None::<usize>, values_of(ptrmap_entries(analysis.leakmap))),
            ]);
            return targets;
        }
        let mut k: usize = 0;
        while k < count
            invariant
                k <= count,
                count == analysis.selectmap@.len(),
                targets@.len() == k,
                forall|j: int|
                    0 <= j < k ==> (#[trigger] targets@[j]).stage == (if count == 1 {
                        None::<usize>
                    } else {
                        Some(analysis.selectmap@[j].0)
                    }) && targets@[j].events@ == analysis.selectmap@[j].1@,
            decreases count - k,
        {
            let stage = if count == 1 {
                None
            } else {
                Some(analysis.selectmap[k].0)
            };
            let events = analysis.selectmap[k].1.clone();
            targets.push(FlameTarget { stage, events });
            k = k + 1;
        }
        assert(targets_view(targets@) =~= Seq::new(
            analysis.selectmap@.len(),
            |k: int|
                (
                    if analysis.selectmap@.len() == 1 {
                        None::<usize>
                    } else {
                        Some(analysis.selectmap@[k].0)
                    },
                    analysis.selectmap@[k].1@,
                ),
        ));
        targets
    }
}

/// The address of the function of each frame, or `None` for a frame
/// whose sled index the table does not hold.
pub fn frame_functions(frames: &Vec<u32>, map: &XRayInstrMap, section_offset: u64) -> (r: Vec<
    Option<u64>,
>)
    ensures
        r@.len() == frames@.len(),
        forall|i: int|
            0 <= i < r@.len() ==> #[trigger] r@[i] == (if frames@[i] < map.0@.len() {
                Some(
                    (crate::xray::XRayEntry {
                        idx: frames@[i],
                        section_offset,
                        entry: map.0@[frames@[i] as int],
                    }).function_spec(),
                )
            } else {
                None::<u64>
            }),
{
    let mut out: Vec<Option<u64>> = Vec::new();
    let mut i: usize = 0;
    while i < frames.len()
        invariant
            i <= frames@.len(),
            out@.len() == i,
            forall|k: int|
                0 <= k < i ==> #[trigger] out@[k] == (if frames@[k] < map.0@.len() {
                    Some(
                        (crate::xray::XRayEntry {
                            idx: frames@[k],
                            section_offset,
                            entry: map.0@[frames@[k] as int],
                        }).function_spec(),
                    )
                } else {
                    None::<u64>
                }),
        decreases frames@.len() - i,
    {
        let id = frames[i];
        if (id as usize) < map.0.len() {
            out.push(Some(map.get(section_offset, id).function()));
        } else {
            out.push(None);
        }
        i = i + 1;
    }
    out
}

} // verus!
