use sftrace::layout::{AllocEvent, Event, Kind};
use sftrace::memory::analyze::AnalyzeResult;
use sftrace::memory::plot::plot_series;
use sftrace::memory::query::{frame_functions, kind_to_str};
use sftrace::memory::split::{Diagnostic, StageResult};
use sftrace::memory::{EventError, MemoryAnalyzer};
use sftrace::text::{event_label, flamegraph_line};
use sftrace::xray::{XRayFunctionEntry, XRayInstrMap};

type Ev = Event<(), (), AllocEvent>;

const MILESTONE: u32 = 9;
const P: u64 = 0x1000;
const Q: u64 = 0x2000;
const R: u64 = 0x3000;

fn call(kind: Kind, tid: u32, func_id: u32, time: u64) -> Ev {
    Event { tid, func_id, time, kind, args: None, return_value: None, alloc_event: None }
}

fn heap(kind: Kind, tid: u32, time: u64, ptr: u64, size: u64) -> Ev {
    Event {
        tid,
        func_id: 0,
        time,
        kind,
        args: None,
        return_value: None,
        alloc_event: Some(AllocEvent { size, align: 8, ptr }),
    }
}

fn analyzer(events: &[Ev]) -> MemoryAnalyzer {
    let mut analyzer = MemoryAnalyzer::new(MILESTONE);
    for event in events {
        analyzer.eat(event).unwrap();
    }
    analyzer
}

fn run(events: &[Ev], select: &[usize]) -> (MemoryAnalyzer, StageResult, AnalyzeResult) {
    let mut analyzer = analyzer(events);
    let stages = analyzer.split_and_cut();
    let analysis = analyzer.analyze(&select.to_vec(), &stages);
    (analyzer, stages, analysis)
}

fn leaks(analysis: &AnalyzeResult) -> Vec<(u64, usize)> {
    analysis.leakmap.iter().map(|(&ptr, &idx)| (ptr, idx)).collect()
}

#[test]
fn memory_analyzer_matched_pairs() {
    let (analyzer, stages, analysis) = run(
        &[
            heap(Kind::Alloc, 1, 1, P, 8),
            heap(Kind::Dealloc, 1, 2, P, 8),
            heap(Kind::Alloc, 1, 3, Q, 16),
            call(Kind::Entry, 1, MILESTONE, 4),
            heap(Kind::Alloc, 1, 5, R, 4),
        ],
        &[],
    );
    assert_eq!(stages.ranges, vec![(0, 3), (3, 4)]);
    assert_eq!(stages.list, vec![vec![2], vec![3]]);
    assert_eq!(analyzer.event(2).unwrap().ptr, Q);
    assert_eq!(analyzer.event(3).unwrap().ptr, R);
    assert_eq!(stages.diagnostics, vec![]);
    assert_eq!(leaks(&analysis), vec![(Q, 2), (R, 3)]);
    assert_eq!(analysis.list, vec![vec![16], vec![20]]);
    assert_eq!(analysis.diagnostics, vec![]);
}

#[test]
fn stack_suffix_is_stored_once() {
    let mut events = vec![call(Kind::Entry, 1, 3, 1), call(Kind::Entry, 1, 4, 2), call(Kind::Entry, 1, 5, 3)];
    for n in 0..50u64 {
        events.push(heap(Kind::Alloc, 1, 10 + n, P + n, 1));
    }
    let analyzer = analyzer(&events);
    assert_eq!(analyzer.stacklist(), &vec![3, 4, 5]);
    assert_eq!(analyzer.len(), 50);
    for id in 0..50 {
        assert_eq!(analyzer.stack(id), vec![3, 4, 5]);
    }
}

#[test]
fn stack_list_grows_when_the_stack_changes() {
    let analyzer = analyzer(&[
        heap(Kind::Alloc, 1, 1, P, 1),
        call(Kind::Entry, 1, 3, 2),
        heap(Kind::Alloc, 1, 3, Q, 1),
        call(Kind::Entry, 1, 4, 4),
        heap(Kind::Alloc, 1, 5, R, 1),
        call(Kind::Exit, 1, 4, 6),
        heap(Kind::Alloc, 1, 7, P + 1, 1),
        call(Kind::TailCall, 1, 3, 8),
        call(Kind::Exit, 1, 3, 9),
        heap(Kind::Alloc, 1, 10, Q + 1, 1),
        heap(Kind::Alloc, 2, 11, R + 1, 1),
    ]);
    // [3] then [3, 4]; [3] no longer ends the list, so it is added again.
    assert_eq!(analyzer.stacklist(), &vec![3, 3, 4, 3]);
    assert_eq!(analyzer.stack(0), Vec::<u32>::new());
    assert_eq!(analyzer.stack(1), vec![3]);
    assert_eq!(analyzer.stack(2), vec![3, 4]);
    assert_eq!(analyzer.stack(3), vec![3]);
    assert_eq!(analyzer.stack(4), Vec::<u32>::new());
    assert_eq!(analyzer.stack(5), Vec::<u32>::new());
}

#[test]
fn eat_refuses_allocator_event_without_payload() {
    let mut analyzer = MemoryAnalyzer::new(MILESTONE);
    analyzer.eat(&heap(Kind::Alloc, 1, 1, P, 8)).unwrap();
    let bare = call(Kind::Dealloc, 1, 0, 2);
    assert_eq!(analyzer.eat(&bare), Err(EventError::MissingAllocEvent));
    assert_eq!(analyzer.len(), 1);
}

#[test]
fn eat_notes_milestone_entries_only() {
    let analyzer = analyzer(&[
        call(Kind::Entry, 1, MILESTONE, 4),
        call(Kind::Exit, 1, MILESTONE, 5),
        call(Kind::Entry, 2, 1, 6),
        call(Kind::Entry, 2, MILESTONE, 7),
        call(Kind::TailCall, 2, MILESTONE, 8),
    ]);
    assert_eq!(analyzer.milestones(), &vec![4, 7]);
}

#[test]
fn matched_stage_keeps_nothing() {
    let (_, stages, analysis) = run(
        &[
            heap(Kind::Alloc, 1, 1, P, 8),
            heap(Kind::Alloc, 2, 2, Q, 16),
            heap(Kind::Dealloc, 2, 3, P, 8),
            heap(Kind::ReallocDealloc, 1, 4, Q, 16),
            heap(Kind::ReallocAlloc, 1, 5, Q, 32),
            heap(Kind::Dealloc, 1, 6, Q, 32),
        ],
        &[],
    );
    assert_eq!(stages.list, vec![Vec::<usize>::new()]);
    assert_eq!(analysis.list, vec![Vec::<u64>::new()]);
    assert_eq!(leaks(&analysis), vec![]);
}

#[test]
fn release_of_other_size_keeps_both() {
    let (_, stages, analysis) = run(
        &[
            heap(Kind::Alloc, 1, 1, P, 8),
            heap(Kind::Alloc, 1, 2, Q, 16),
            heap(Kind::Dealloc, 1, 3, Q, 24),
            heap(Kind::Dealloc, 1, 4, R, 1),
        ],
        &[],
    );
    // Kept on the way: 1 and 2, then 3; at the end the live 0. Sorted.
    assert_eq!(stages.list, vec![vec![0, 1, 2, 3]]);
    assert_eq!(
        analysis.list,
        vec![vec![8, 24, 0, u64::MAX]]
    );
    assert_eq!(
        analysis.diagnostics,
        vec![Diagnostic::BadFree { stage: 0, idx: 3, ptr: R }]
    );
    assert_eq!(leaks(&analysis), vec![(P, 0)]);
}

#[test]
fn events_are_ordered_by_time_and_cut_at_milestones() {
    let (analyzer, stages, analysis) = run(
        &[
            heap(Kind::Alloc, 2, 30, R, 3),
            call(Kind::Entry, 2, MILESTONE, 20),
            heap(Kind::Alloc, 1, 10, P, 1),
            call(Kind::Entry, 1, MILESTONE, 10),
            heap(Kind::Alloc, 1, 20, Q, 2),
            call(Kind::Entry, 1, MILESTONE, 2),
            call(Kind::Entry, 1, MILESTONE, 90),
        ],
        &[],
    );
    let times: Vec<u64> = (0..3).map(|id| analyzer.event(id).unwrap().time).collect();
    assert_eq!(times, vec![10, 20, 30]);
    // Milestones 2, 10, 20, 90: none before 2, one up to 10, one up to 20,
    // the last up to 90; then the events have run out.
    assert_eq!(stages.ranges, vec![(0, 0), (0, 1), (1, 2), (2, 3)]);
    assert_eq!(stages.list, vec![vec![], vec![0], vec![1], vec![2]]);
    assert_eq!(analyzer.milestones(), &Vec::<u64>::new());
    assert_eq!(analysis.list, vec![vec![], vec![1], vec![3], vec![6]]);
}

#[test]
fn events_of_equal_time_keep_their_order() {
    let (analyzer, _, _) = run(
        &[
            heap(Kind::Alloc, 1, 5, P, 1),
            heap(Kind::Dealloc, 1, 5, P, 1),
            heap(Kind::Alloc, 1, 5, Q, 1),
            heap(Kind::Alloc, 1, 1, R, 1),
        ],
        &[],
    );
    let seen: Vec<(Kind, u64)> =
        (0..4).map(|id| analyzer.event(id).unwrap()).map(|ev| (ev.kind, ev.ptr)).collect();
    assert_eq!(
        seen,
        vec![(Kind::Alloc, R), (Kind::Alloc, P), (Kind::Dealloc, P), (Kind::Alloc, Q)]
    );
}

#[test]
fn milestones_after_the_last_event_are_left() {
    let (analyzer, stages, _) = run(
        &[
            heap(Kind::Alloc, 1, 1, P, 1),
            call(Kind::Entry, 1, MILESTONE, 5),
            call(Kind::Entry, 1, MILESTONE, 8),
            call(Kind::Entry, 1, MILESTONE, 6),
        ],
        &[],
    );
    assert_eq!(stages.ranges, vec![(0, 1)]);
    assert_eq!(analyzer.milestones(), &vec![8, 6]);
}

#[test]
fn no_events_no_stages() {
    let (_, stages, analysis) = run(&[call(Kind::Entry, 1, MILESTONE, 5)], &[3]);
    assert_eq!(stages.ranges, vec![]);
    assert_eq!(stages.list, Vec::<Vec<usize>>::new());
    assert_eq!(analysis.list, Vec::<Vec<u64>>::new());
    assert_eq!(analysis.selectmap, vec![]);
    assert_eq!(leaks(&analysis), vec![]);
}

#[test]
fn double_allocation_is_reported_except_in_the_last_stage() {
    let (_, stages, analysis) = run(
        &[
            heap(Kind::Alloc, 1, 1, P, 8),
            heap(Kind::Alloc, 1, 2, P, 8),
            call(Kind::Entry, 1, MILESTONE, 3),
            heap(Kind::Alloc, 1, 4, Q, 8),
            heap(Kind::Alloc, 1, 5, Q, 8),
        ],
        &[],
    );
    assert_eq!(
        stages.diagnostics,
        vec![Diagnostic::BadAlloc { stage: 0, old: 0, new: 1, ptr: P }]
    );
    // The later allocation takes the pointer; the earlier one is dropped.
    assert_eq!(stages.list, vec![vec![1], vec![3]]);
    assert_eq!(analysis.diagnostics, vec![]);
    assert_eq!(analysis.list, vec![vec![8], vec![16]]);
}

#[test]
fn analysis_reports_double_allocation_across_stages() {
    let (_, stages, analysis) = run(
        &[
            heap(Kind::Alloc, 1, 1, P, 8),
            call(Kind::Entry, 1, MILESTONE, 3),
            heap(Kind::Alloc, 1, 4, P, 2),
            call(Kind::Entry, 1, MILESTONE, 5),
            heap(Kind::Alloc, 1, 6, Q, 1),
        ],
        &[],
    );
    assert_eq!(stages.list, vec![vec![0], vec![1], vec![2]]);
    assert_eq!(
        analysis.diagnostics,
        vec![Diagnostic::BadAlloc { stage: 1, old: 0, new: 1, ptr: P }]
    );
    assert_eq!(leaks(&analysis), vec![(P, 1), (Q, 2)]);
    assert_eq!(analysis.list, vec![vec![8], vec![10], vec![11]]);
}

#[test]
fn timeline_of_allocations_only_does_not_descend() {
    let mut events = Vec::new();
    for n in 0..40u64 {
        events.push(heap(Kind::Alloc, 1, n, P + n, (n * 7) % 5));
    }
    let (_, _, analysis) = run(&events, &[]);
    let timeline = &analysis.list[0];
    assert_eq!(timeline.len(), 40);
    assert!(timeline.windows(2).all(|w| w[0] <= w[1]));
    assert_eq!(*timeline.last().unwrap(), (0..40u64).map(|n| (n * 7) % 5).sum::<u64>());
}

#[test]
fn leak_map_keeps_the_order_of_the_pointer_map() {
    let (_, stages, analysis) = run(
        &[
            heap(Kind::Alloc, 1, 1, P, 1),
            heap(Kind::Alloc, 1, 2, Q, 2),
            heap(Kind::Alloc, 1, 3, R, 3),
            call(Kind::Entry, 1, MILESTONE, 4),
            heap(Kind::Dealloc, 1, 5, P, 9),
            call(Kind::Entry, 1, MILESTONE, 6),
            heap(Kind::Alloc, 1, 7, P + 8, 4),
        ],
        &[0, 1, 2],
    );
    assert_eq!(stages.list, vec![vec![0, 1, 2], vec![3], vec![4]]);
    // Removing P moves the last entry, R, into its place.
    assert_eq!(leaks(&analysis), vec![(R, 2), (Q, 1), (P + 8, 4)]);
    assert_eq!(
        analysis.selectmap,
        vec![(0, vec![0, 1, 2]), (1, vec![2, 1]), (2, vec![2, 1, 4])]
    );
    assert_eq!(analysis.list, vec![vec![1, 3, 6], vec![6u64.wrapping_sub(9)], vec![1]]);
    let targets = MemoryAnalyzer::flamegraph_targets(&analysis);
    let seen: Vec<(Option<usize>, Vec<usize>)> =
        targets.into_iter().map(|t| (t.stage, t.events)).collect();
    assert_eq!(
        seen,
        vec![(Some(0), vec![0, 1, 2]), (Some(1), vec![2, 1]), (Some(2), vec![2, 1, 4])]
    );
}

#[test]
fn flamegraph_targets_without_selection_show_the_leaks() {
    let events = [
        heap(Kind::Alloc, 1, 1, P, 1),
        heap(Kind::Alloc, 1, 2, Q, 2),
        heap(Kind::Alloc, 1, 3, R, 3),
        call(Kind::Entry, 1, MILESTONE, 4),
        heap(Kind::Dealloc, 1, 5, P, 9),
    ];
    let (_, _, analysis) = run(&events, &[]);
    let targets = MemoryAnalyzer::flamegraph_targets(&analysis);
    assert_eq!(targets.len(), 1);
    assert_eq!(targets[0].stage, None);
    assert_eq!(targets[0].events, vec![2, 1]);

    let (_, _, analysis) = run(&events, &[1, 7]);
    let targets = MemoryAnalyzer::flamegraph_targets(&analysis);
    assert_eq!(targets.len(), 1);
    assert_eq!(targets[0].stage, None);
    assert_eq!(targets[0].events, vec![2, 1]);
}

#[test]
fn track_follows_a_pointer() {
    let (analyzer, _, _) = run(
        &[
            heap(Kind::Alloc, 1, 1, P, 8),
            heap(Kind::Alloc, 1, 2, Q, 8),
            heap(Kind::ReallocDealloc, 1, 3, P, 8),
            heap(Kind::ReallocAlloc, 1, 4, P, 16),
            heap(Kind::Dealloc, 2, 5, P, 16),
        ],
        &[],
    );
    assert_eq!(analyzer.track(0), vec![0, 2, 3, 4]);
    assert_eq!(analyzer.track(3), vec![0, 2, 3, 4]);
    assert_eq!(analyzer.track(1), vec![1]);
    assert_eq!(analyzer.event(5), None);
}

#[test]
fn frame_functions_resolve_through_the_table() {
    let map = XRayInstrMap(vec![
        XRayFunctionEntry { address: 0, function: 0x100, kind: 0, always_instrument: 0, version: 2 },
        XRayFunctionEntry { address: 0, function: 0x200, kind: 0, always_instrument: 0, version: 2 },
    ]);
    assert_eq!(
        frame_functions(&vec![1, 0, 2], &map, 0x1000),
        vec![Some(0x1000 + 32 + 0x200 + 8), Some(0x1000 + 0x100 + 8), None]
    );
}

#[test]
fn flamegraph_lines() {
    let names = vec!["main".to_string(), "serve".to_string(), "alloc::vec".to_string()];
    assert_eq!(flamegraph_line(&names, 16), "main;serve;alloc::vec 16\n");
    assert_eq!(flamegraph_line(&vec![], 0), " 0\n");
    assert_eq!(flamegraph_line(&vec!["f".to_string()], u64::MAX), "f 18446744073709551615\n");
    // No separator is put while the line is still empty.
    assert_eq!(flamegraph_line(&vec![String::new(), "g".to_string()], 7), "g 7\n");
}

#[test]
fn event_labels() {
    assert_eq!(event_label(0), "e0");
    assert_eq!(event_label(9), "e9");
    assert_eq!(event_label(10), "e10");
    assert_eq!(event_label(1234567890), "e1234567890");
}

#[test]
fn plot_series_of_each_stage() {
    let (_, stages, analysis) = run(
        &[
            heap(Kind::Alloc, 1, 1, P, 8),
            heap(Kind::Alloc, 1, 2, Q, 16),
            call(Kind::Entry, 1, MILESTONE, 4),
            heap(Kind::Alloc, 1, 5, R, 4),
        ],
        &[],
    );
    let folded = plot_series(true, &stages, &analysis);
    assert_eq!(folded.len(), 2);
    assert_eq!(folded[0].positions, Some(vec![0, 1]));
    assert_eq!(folded[0].labels, vec!["e0", "e1"]);
    assert_eq!(folded[0].y, vec![8, 24]);
    assert_eq!(folded[1].positions, Some(vec![0]));
    assert_eq!(folded[1].labels, vec!["e2"]);
    assert_eq!(folded[1].y, vec![28]);

    let flat = plot_series(false, &stages, &analysis);
    assert_eq!(flat[0].positions, None);
    assert_eq!(flat[0].labels, vec!["e0", "e1"]);
    assert_eq!(flat[1].y, vec![28]);
}

#[test]
fn allocator_kind_names() {
    assert_eq!(kind_to_str(Kind::Alloc), "alloc");
    assert_eq!(kind_to_str(Kind::Dealloc), "free");
    assert_eq!(kind_to_str(Kind::ReallocAlloc), "r/alloc");
    assert_eq!(kind_to_str(Kind::ReallocDealloc), "r/free");
}
