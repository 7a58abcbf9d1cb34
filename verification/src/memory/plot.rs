//! The series of the live-heap plot.

use super::analyze::AnalyzeResult;
use super::split::StageResult;
use crate::text::{event_label, event_label_spec};
use vstd::prelude::*;

verus! {

/// The series of one stage: the live bytes after each kept event, the
/// label of each kept event, and, when the stages are folded onto one
/// axis, the position of each point counted from the start of the stage.
pub struct PlotSeries {
    pub positions: Option<Vec<usize>>,
    pub labels: Vec<String>,
    pub y: Vec<u64>,
}

/// The labels of the events of a list.
pub open spec fn labels_of(list: Seq<usize>) -> Seq<Seq<char>> {
    Seq::new(list.len(), |i: int| event_label_spec(list[i] as nat))
}

/// The positions from 0 up to `n`.
pub open spec fn positions_to(n: nat) -> Seq<usize> {
    Seq::new(n, |i: int| i as usize)
}

impl PlotSeries {
    /// Whether this is the series of the stage with the given kept events
    /// and timeline.
    pub open spec fn shows(self, fold: bool, list: Seq<usize>, timeline: Seq<u64>) -> bool {
        &&& self.y@ == timeline
        &&& crate::text::names_view(self.labels@) == labels_of(list)
        &&& match self.positions {
            Some(positions) => fold && positions@ == positions_to(timeline.len()),
            None => !fold,
        }
    }
}

/// The labels of the events of a list.
fn labels(list: &Vec<usize>) -> (out: Vec<String>)
    ensures
        crate::text::names_view(out@) == labels_of(list@),
{
    let mut out: Vec<String> = Vec::new();
    let mut i: usize = 0;
    while i < list.len()
        invariant
            i <= list@.len(),
            out@.len() == i,
            forall|k: int| 0 <= k < i ==> (#[trigger] out@[k])@ == event_label_spec(list@[k] as nat),
        decreases list@.len() - i,
    {
        out.push(event_label(list[i]));
        i = i + 1;
    }
    assert(crate::text::names_view(out@) =~= labels_of(list@));
    out
}

/// The positions from 0 up to `n`.
fn positions(n: usize) -> (out: Vec<usize>)
    ensures
        out@ == positions_to(n as nat),
{
    let mut out: Vec<usize> = Vec::new();
    let mut i: usize = 0;
    while i < n
        invariant
            i <= n,
            out@.len() == i,
            forall|k: int| 0 <= k < i ==> out@[k] == k,
        decreases n - i,
    {
        out.push(i);
        i = i + 1;
    }
    assert(out@ =~= positions_to(n as nat));
    out
}

/// The series to plot, one for each stage of the analysis. With `fold`
/// every stage starts at position 0 of a shared axis; without it each
/// point stands at the label of its event.
pub fn plot_series(fold: bool, stages: &StageResult, analysis: &AnalyzeResult) -> (series: Vec<
    PlotSeries,
>)
    requires
        analysis.list@.len() <= stages.list@.len(),
    ensures
        series@.len() == analysis.list@.len(),
        forall|s: int|
            0 <= s < series@.len() ==> (#[trigger] series@[s]).shows(
                fold,
                stages.list@[s]@,
                analysis.list@[s]@,
            ),
{
    let mut series: Vec<PlotSeries> = Vec::new();
    let mut s: usize = 0;
    while s < analysis.list.len()
        invariant
            s <= analysis.list@.len() <= stages.list@.len(),
            series@.len() == s,
            forall|k: int|
                0 <= k < s ==> (#[trigger] series@[k]).shows(
                    fold,
                    stages.list@[k]@,
                    analysis.list@[k]@,
                ),
        decreases analysis.list@.len() - s,
    {
        let timeline: &Vec<u64> = &analysis.list[s];
        let y = timeline.clone();
        let positions = if fold {
            Some(positions(timeline.len()))
        } else {
            None
        };
        series.push(PlotSeries { positions, labels: labels(&stages.list[s]), y });
        s = s + 1;
    }
    series
}

} // verus!
