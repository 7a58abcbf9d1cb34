//! The offline memory analyzer: replays the events of a trace into
//! per-thread call stacks and a list of allocator events, cuts that list
//! into stages at the entries of a milestone function, cancels the
//! short-lived allocations of each stage, and follows the live heap.

pub mod analyze;
pub mod keep;
pub mod plot;
pub mod ptrmap;
pub mod query;
pub mod sorting;
pub mod split;

use crate::layout::{AllocEvent, Event, Kind};
use std::collections::HashMap;
use vstd::prelude::*;

verus! {

broadcast use vstd::std_specs::hash::group_hash_axioms;

/// One allocator event as the analyzer keeps it. The stack at the time of
/// the event is `stacklist[stack_start..stack_end]`.
#[derive(Clone, Copy, Debug, PartialEq, Eq, Structural)]
pub struct AllocRecord {
    pub kind: Kind,
    pub tid: u32,
    pub time: u64,
    pub ptr: u64,
    pub size: u64,
    pub stack_start: usize,
    pub stack_end: usize,
}

/// Why an event was refused.
#[derive(Clone, Copy, Debug, PartialEq, Eq, Structural)]
pub enum EventError {
    /// An allocator event without its payload.
    MissingAllocEvent,
}

/// What the analyzer holds, as mathematics.
#[verifier::ext_equal]
pub struct AnalyzerState {
    /// Sled index of the milestone function.
    pub milestone: u32,
    /// Times of the milestone entries seen, in the order kept.
    pub milestones: Seq<u64>,
    /// The emulated call stack of each thread seen.
    pub stacks: Map<u32, Seq<u32>>,
    /// The flat list that the stack ranges of the events point into.
    pub stacklist: Seq<u32>,
    /// The allocator events.
    pub events: Seq<AllocRecord>,
}

/// Whether `list` ends with `tail`.
pub open spec fn ends_with_spec(list: Seq<u32>, tail: Seq<u32>) -> bool {
    tail.len() <= list.len() && list.subrange(list.len() - tail.len(), list.len() as int) == tail
}

impl AnalyzerState {
    /// The state of a new analyzer.
    pub open spec fn init(milestone: u32) -> AnalyzerState {
        AnalyzerState {
            milestone,
            milestones: Seq::empty(),
            stacks: Map::empty(),
            stacklist: Seq::empty(),
            events: Seq::empty(),
        }
    }

    /// The call stack of a thread; empty for a thread not seen.
    pub open spec fn stack_of(self, tid: u32) -> Seq<u32> {
        if self.stacks.contains_key(tid) {
            self.stacks[tid]
        } else {
            Seq::empty()
        }
    }

    /// Every stack range lies inside the stack list.
    pub open spec fn wf(self) -> bool {
        forall|i: int|
            0 <= i < self.events.len() ==> (#[trigger] self.events[i]).stack_start
                <= self.events[i].stack_end <= self.stacklist.len()
    }

    /// The stack recorded for the event at `i`.
    pub open spec fn stack_at(self, i: int) -> Seq<u32> {
        self.stacklist.subrange(self.events[i].stack_start as int, self.events[i].stack_end as int)
    }

    /// Whether the event can be taken in: every call event can, and an
    /// allocator event when it carries its payload.
    pub open spec fn accepts<A, R>(e: Event<A, R, AllocEvent>) -> bool {
        e.kind.is_call() || e.alloc_event.is_some()
    }

    /// The state after a call event.
    pub open spec fn after_call(self, kind: Kind, tid: u32, func_id: u32, time: u64) -> AnalyzerState {
        if kind == Kind::Entry {
            AnalyzerState {
                stacks: self.stacks.insert(tid, self.stack_of(tid).push(func_id)),
                milestones: if func_id == self.milestone {
                    self.milestones.push(time)
                } else {
                    self.milestones
                },
                ..self
            }
        } else {
            AnalyzerState {
                stacks: self.stacks.insert(
                    tid,
                    if self.stack_of(tid).len() > 0 {
                        self.stack_of(tid).drop_last()
                    } else {
                        self.stack_of(tid)
                    },
                ),
                ..self
            }
        }
    }

    /// The state after an allocator event: the stack of the thread is
    /// found at the end of the stack list, or else appended to it, and
    /// the event is recorded with the range of that stack.
    pub open spec fn after_alloc(self, kind: Kind, tid: u32, time: u64, alloc: AllocEvent) -> AnalyzerState {
        let stack = self.stack_of(tid);
        let reuse = ends_with_spec(self.stacklist, stack);
        let stacklist = if reuse {
            self.stacklist
        } else {
            self.stacklist + stack
        };
        AnalyzerState {
            stacklist,
            events: self.events.push(
                AllocRecord {
                    kind,
                    tid,
                    time,
                    ptr: alloc.ptr,
                    size: alloc.size,
                    stack_start: (stacklist.len() - stack.len()) as usize,
                    stack_end: stacklist.len() as usize,
                },
            ),
            ..self
        }
    }

    /// The state after an event that `accepts` admits.
    pub open spec fn step<A, R>(self, e: Event<A, R, AllocEvent>) -> AnalyzerState {
        if e.kind.is_call() {
            self.after_call(e.kind, e.tid, e.func_id, e.time)
        } else {
            self.after_alloc(e.kind, e.tid, e.time, e.alloc_event.unwrap())
        }
    }

    /// The state after a run of events, each taken in when `accepts`
    /// admits it and passed over otherwise.
    pub open spec fn run<A, R>(self, events: Seq<Event<A, R, AllocEvent>>) -> AnalyzerState
        decreases events.len(),
    {
        if events.len() == 0 {
            self
        } else {
            let before = self.run(events.drop_last());
            if AnalyzerState::accepts(events.last()) {
                before.step(events.last())
            } else {
                before
            }
        }
    }
}

/// The number of ENTRY events among the first `upto`.
pub open spec fn entries_in<A, R>(events: Seq<Event<A, R, AllocEvent>>, upto: int) -> int
    decreases upto,
{
    if upto <= 0 {
        0
    } else if events[upto - 1].kind == Kind::Entry {
        entries_in(events, upto - 1) + 1
    } else {
        entries_in(events, upto - 1)
    }
}

/// The number of EXIT and TAIL_CALL events among the first `upto`.
pub open spec fn exits_in<A, R>(events: Seq<Event<A, R, AllocEvent>>, upto: int) -> int
    decreases upto,
{
    if upto <= 0 {
        0
    } else if events[upto - 1].kind == Kind::Exit || events[upto - 1].kind == Kind::TailCall {
        exits_in(events, upto - 1) + 1
    } else {
        exits_in(events, upto - 1)
    }
}

/// For the call events of one thread, as long as no exit comes without
/// an open entry, the emulated stack is as much deeper as there were
/// more entries than exits, a tail call counting as an exit. With as
/// many of the one as of the other the stack has the depth it had.
pub proof fn lemma_call_depth<A, R>(s: AnalyzerState, events: Seq<Event<A, R, AllocEvent>>, tid: u32)
    requires
        forall|i: int| 0 <= i < events.len() ==> (#[trigger] events[i]).kind.is_call() && events[i].tid == tid,
        forall|n: int|
            0 <= n <= events.len() ==> s.stack_of(tid).len() + #[trigger] entries_in(events, n)
                - exits_in(events, n) >= 0,
    ensures
        s.run(events).stack_of(tid).len() == s.stack_of(tid).len() + entries_in(
            events,
            events.len() as int,
        ) - exits_in(events, events.len() as int),
    decreases events.len(),
{
    if events.len() > 0 {
        let head = events.drop_last();
        let n = head.len() as int;
        assert forall|i: int| 0 <= i < head.len() implies (#[trigger] head[i]).kind.is_call()
            && head[i].tid == tid by {
            assert(head[i] == events[i]);
        }
        assert forall|m: int| 0 <= m <= head.len() implies s.stack_of(tid).len()
            + #[trigger] entries_in(head, m) - exits_in(head, m) >= 0 by {
            lemma_counts_of_prefix(events, head, m);
            assert(s.stack_of(tid).len() + entries_in(events, m) - exits_in(events, m) >= 0);
        }
        lemma_call_depth(s, head, tid);
        lemma_counts_of_prefix(events, head, n);
        let before = s.run(head);
        let e = events.last();
        assert(AnalyzerState::accepts(e));
        assert(s.run(events) == before.step(e));
        assert(s.stack_of(tid).len() + entries_in(events, n + 1) - exits_in(events, n + 1) >= 0);
    }
}

/// The counts of a prefix do not depend on what follows it.
proof fn lemma_counts_of_prefix<A, R>(
    events: Seq<Event<A, R, AllocEvent>>,
    head: Seq<Event<A, R, AllocEvent>>,
    upto: int,
)
    requires
        0 <= upto <= head.len() <= events.len(),
        forall|i: int| 0 <= i < head.len() ==> head[i] == events[i],
    ensures
        entries_in(head, upto) == entries_in(events, upto),
        exits_in(head, upto) == exits_in(events, upto),
    decreases upto,
{
    if upto > 0 {
        lemma_counts_of_prefix(events, head, upto - 1);
    }
}

/// Allocator events that all see the same call stack share one copy of
/// it: after one or more such events the stack list is the list from
/// before, with the stack added once unless the list already ended with
/// it. Starting from an empty list its length is the depth of the stack,
/// whatever the number of events. The list is taken to fit in memory.
pub proof fn lemma_stack_suffix_reuse<A, R>(
    s: AnalyzerState,
    events: Seq<Event<A, R, AllocEvent>>,
    stack: Seq<u32>,
)
    requires
        events.len() >= 1,
        s.stacklist.len() + stack.len() <= usize::MAX,
        forall|i: int|
            0 <= i < events.len() ==> {
                &&& !(#[trigger] events[i]).kind.is_call()
                &&& events[i].alloc_event.is_some()
                &&& s.stack_of(events[i].tid) == stack
            },
    ensures
        s.run(events).stacks == s.stacks,
        s.run(events).stacklist == if ends_with_spec(s.stacklist, stack) {
            s.stacklist
        } else {
            s.stacklist + stack
        },
        s.stacklist.len() == 0 ==> s.run(events).stacklist.len() == stack.len(),
        s.run(events).events.len() == s.events.len() + events.len(),
        forall|i: int|
            s.events.len() <= i < s.events.len() + events.len() ==> s.run(events).stack_at(i)
                == stack,
    decreases events.len(),
{
    let before = s.run(events.drop_last());
    let e = events.last();
    let after = s.run(events);
    assert(AnalyzerState::accepts(e));
    assert(after == before.step(e));
    if events.len() == 1 {
        assert(before == s);
    } else {
        assert forall|i: int| 0 <= i < events.drop_last().len() implies {
            &&& !(#[trigger] events.drop_last()[i]).kind.is_call()
            &&& events.drop_last()[i].alloc_event.is_some()
            &&& s.stack_of(events.drop_last()[i].tid) == stack
        } by {
            assert(events.drop_last()[i] == events[i]);
        }
        lemma_stack_suffix_reuse(s, events.drop_last(), stack);
        let l = before.stacklist;
        assert(ends_with_spec(l, stack)) by {
            if ends_with_spec(s.stacklist, stack) {
            } else {
                assert((s.stacklist + stack).subrange(
                    (s.stacklist + stack).len() - stack.len(),
                    (s.stacklist + stack).len() as int,
                ) =~= stack);
            }
        }
    }
    assert(before.stack_of(e.tid) == stack);
    let l = after.stacklist;
    assert(l.subrange(l.len() - stack.len(), l.len() as int) =~= stack) by {
        if ends_with_spec(before.stacklist, stack) {
        } else {
            assert((before.stacklist + stack).subrange(
                (before.stacklist + stack).len() - stack.len(),
                (before.stacklist + stack).len() as int,
            ) =~= stack);
        }
    }
    assert forall|i: int| s.events.len() <= i < s.events.len() + events.len() implies after.stack_at(
        i,
    ) == stack by {
        if i < before.events.len() {
            assert(after.events[i] == before.events[i]);
            assert(before.stack_at(i) == stack);
            assert(after.stacklist == before.stacklist);
        } else {
            assert(after.stack_at(i) =~= stack);
        }
    }
    if s.stacklist.len() == 0 {
        assert(s.stacklist + stack =~= stack);
        if ends_with_spec(s.stacklist, stack) {
            assert(stack.len() == 0);
        }
    }
}

/// The memory analyzer.
pub struct MemoryAnalyzer {
    milestone_func_id: u32,
    milestones: Vec<u64>,
    threads: HashMap<u32, Vec<u32>>,
    stacklist: Vec<u32>,
    alloc_event: Vec<AllocRecord>,
}

impl View for MemoryAnalyzer {
    type V = AnalyzerState;

    closed spec fn view(&self) -> AnalyzerState {
        AnalyzerState {
            milestone: self.milestone_func_id,
            milestones: self.milestones@,
            stacks: self.threads@.map_values(|stack: Vec<u32>| stack@),
            stacklist: self.stacklist@,
            events: self.alloc_event@,
        }
    }
}

/// Whether `list` ends with `tail`.
fn ends_with(list: &Vec<u32>, tail: &Vec<u32>) -> (b: bool)
    ensures
        b == ends_with_spec(list@, tail@),
{
    if tail.len() > list.len() {
        return false;
    }
    let base: usize = list.len() - tail.len();
    let mut i: usize = 0;
    while i < tail.len()
        invariant
            base + tail@.len() == list@.len(),
            list@.len() <= usize::MAX,
            i <= tail@.len(),
            forall|k: int| 0 <= k < i ==> list@[base + k] == tail@[k],
        decreases tail@.len() - i,
    {
        if list[base + i] != tail[i] {
            proof {
                let sub = list@.subrange(list@.len() - tail@.len(), list@.len() as int);
                assert(sub[i as int] == list@[base + i]);
            }
            return false;
        }
        i = i + 1;
    }
    assert(list@.subrange(list@.len() - tail@.len(), list@.len() as int) =~= tail@);
    true
}

impl MemoryAnalyzer {
    /// An analyzer that has seen nothing, for the milestone function with
    /// the given sled index.
    pub fn new(milestone_func_id: u32) -> (analyzer: MemoryAnalyzer)
        ensures
            analyzer@ == AnalyzerState::init(milestone_func_id),
            analyzer@.wf(),
    {
        let analyzer = MemoryAnalyzer {
            milestone_func_id,
            milestones: Vec::new(),
            threads: HashMap::new(),
            stacklist: Vec::new(),
            alloc_event: Vec::new(),
        };
        assert(analyzer@.stacks =~= Map::<u32, Seq<u32>>::empty());
        analyzer
    }

    /// Takes one event in.
    ///
    /// ENTRY pushes the function on the stack of its thread and, for the
    /// milestone function, notes the time. EXIT and TAIL_CALL pop. An
    /// allocator event is recorded with the stack of its thread; it is
    /// refused, and nothing changes, when its payload is missing.
    pub fn eat<A, R>(&mut self, event: &Event<A, R, AllocEvent>) -> (r: Result<(), EventError>)
        ensures
            r.is_ok() <==> AnalyzerState::accepts(*event),
            r.is_ok() ==> final(self)@ == old(self)@.step(*event),
            r.is_err() ==> final(self)@ == old(self)@ && r == Err::<(), EventError>(
                EventError::MissingAllocEvent,
            ),
            old(self)@.wf() ==> final(self)@.wf(),
    {
        let tid = event.tid;
        match event.kind {
            Kind::Entry => {
                let mut stack = match self.threads.remove(&tid) {
                    Some(stack) => stack,
                    None => Vec::new(),
                };
                stack.push(event.func_id);
                self.threads.insert(tid, stack);
                if event.func_id == self.milestone_func_id {
                    self.milestones.push(event.time);
                }
                proof {
                    assert(self@.stacks =~= old(self)@.stacks.insert(
                        tid,
                        old(self)@.stack_of(tid).push(event.func_id),
                    ));
                    assert(self@ =~= old(self)@.step(*event));
                }
                Ok(())
            },
            Kind::Exit | Kind::TailCall => {
                let mut stack = match self.threads.remove(&tid) {
                    Some(stack) => stack,
                    None => Vec::new(),
                };
                stack.pop();
                self.threads.insert(tid, stack);
                proof {
                    let before = old(self)@.stack_of(tid);
                    assert(self@.stacks =~= old(self)@.stacks.insert(
                        tid,
                        if before.len() > 0 {
                            before.drop_last()
                        } else {
                            before
                        },
                    ));
                    assert(self@ =~= old(self)@.step(*event));
                }
                Ok(())
            },
            Kind::Alloc | Kind::Dealloc | Kind::ReallocAlloc | Kind::ReallocDealloc => {
                let alloc = match &event.alloc_event {
                    Some(alloc) => *alloc,
                    None => {
                        return Err(EventError::MissingAllocEvent);
                    },
                };
                let empty: Vec<u32> = Vec::new();
                let stack: &Vec<u32> = match self.threads.get(&tid) {
                    Some(stack) => stack,
                    None => &empty,
                };
                assert(stack@ == old(self)@.stack_of(tid));
                let depth = stack.len();
                if !ends_with(&self.stacklist, stack) {
                    self.stacklist.extend_from_slice(stack.as_slice());
                }
                let end = self.stacklist.len();
                let start = end - depth;
                self.alloc_event.push(
                    AllocRecord {
                        kind: event.kind,
                        tid,
                        time: event.time,
                        ptr: alloc.ptr,
                        size: alloc.size,
                        stack_start: start,
                        stack_end: end,
                    },
                );
                proof {
                    assert(self@.stacks =~= old(self)@.stacks);
                    assert(self@ =~= old(self)@.step(*event));
                }
                Ok(())
            },
        }
    }
}

} // verus!
