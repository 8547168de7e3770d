//! The decisions of a conversion run: the segments are converted strictly one
//! after the other, and the first failure ends the run. The caller performs
//! each action (spawning the encoder, reporting progress) and hands back what
//! happened.
use crate::cli::SplitStructure;
use crate::models::chapters::{MergedChapter, ChapterNamingFormat};
use crate::naming::{filename_spec, hierarchical_dirs, OutputPath, OutputPathView};
use crate::progress::{format_time_from_ms, ms_time_text};
use vstd::prelude::*;

verus! {

/// Where a run stands.
#[derive(Debug, Clone, Copy, PartialEq, Eq, Structural)]
pub enum RunPhase {
    Idle,
    Started,
    SegmentStarted,
    SegmentStreaming,
    SegmentCompleted,
    AllCompleted,
    AllFailed,
}

/// What happened since the last step.
#[derive(Debug, Clone, Copy, PartialEq, Eq, Structural)]
pub enum RunEvent {
    /// The run is asked to begin.
    Begin,
    /// The caller is ready for the next segment.
    NextSegment,
    /// The encoder wrote a line of progress.
    OutputLine,
    /// The encoder exited, successfully or not.
    ProcessExited { success: bool },
}

/// What the caller is to do next.
#[derive(Debug, Clone, Copy, PartialEq, Eq, Structural)]
pub enum RunAction {
    /// Announce a run of `total` segments.
    AnnounceStart { total: usize },
    /// Start the encoder on segment `number` (1-based).
    StartSegment { number: usize },
    /// Report the progress of segment `number`.
    ReportProgress { number: usize },
    /// Report segment `number` as written.
    CompleteSegment { number: usize },
    /// Report every segment as written.
    CompleteAll { total: usize },
    /// End the run: segment `number` failed.
    Abort { number: usize },
    /// The event does not apply in this phase.
    Ignore,
}

/// A run over `total` segments, of which `current` is the last one started.
#[derive(Debug, Clone, Copy, PartialEq, Eq, Structural)]
pub struct Orchestrator {
    pub total: usize,
    pub current: usize,
    pub phase: RunPhase,
}

impl Orchestrator {
    pub open spec fn wf(self) -> bool {
        self.current <= self.total
    }
}

/// The next state and action of a run in state `o` on event `e`.
pub open spec fn transition(o: Orchestrator, e: RunEvent) -> (Orchestrator, RunAction) {
    match (o.phase, e) {
        (RunPhase::Idle, RunEvent::Begin) => (
            Orchestrator { phase: RunPhase::Started, ..o },
            RunAction::AnnounceStart { total: o.total },
        ),
        (RunPhase::Started, RunEvent::NextSegment) | (
            RunPhase::SegmentCompleted,
            RunEvent::NextSegment,
        ) => if o.current < o.total {
            (
                Orchestrator { phase: RunPhase::SegmentStarted, current: (o.current + 1) as usize, ..o },
                RunAction::StartSegment { number: (o.current + 1) as usize },
            )
        } else {
            (Orchestrator { phase: RunPhase::AllCompleted, ..o }, RunAction::CompleteAll { total: o.total })
        },
        (RunPhase::SegmentStarted, RunEvent::OutputLine) | (
            RunPhase::SegmentStreaming,
            RunEvent::OutputLine,
        ) => (
            Orchestrator { phase: RunPhase::SegmentStreaming, ..o },
            RunAction::ReportProgress { number: o.current },
        ),
        (RunPhase::SegmentStarted, RunEvent::ProcessExited { success }) | (
            RunPhase::SegmentStreaming,
            RunEvent::ProcessExited { success },
        ) => if success {
            (
                Orchestrator { phase: RunPhase::SegmentCompleted, ..o },
                RunAction::CompleteSegment { number: o.current },
            )
        } else {
            (Orchestrator { phase: RunPhase::AllFailed, ..o }, RunAction::Abort { number: o.current })
        },
        _ => (o, RunAction::Ignore),
    }
}

impl Orchestrator {
    /// A run over `total` segments that has not begun.
    pub fn new(total: usize) -> (r: Orchestrator)
        ensures
            r == (Orchestrator { total, current: 0, phase: RunPhase::Idle }),
            r.wf(),
    {
        Orchestrator { total, current: 0, phase: RunPhase::Idle }
    }

    /// Takes one step on `event` (see [`transition`]).
    pub fn step(&mut self, event: RunEvent) -> (r: RunAction)
        requires
            old(self).wf(),
        ensures
            (*final(self), r) == transition(*old(self), event),
            final(self).wf(),
    {
        match (self.phase, event) {
            (RunPhase::Idle, RunEvent::Begin) => {
                self.phase = RunPhase::Started;
                RunAction::AnnounceStart { total: self.total }
            },
            (RunPhase::Started, RunEvent::NextSegment) | (
                RunPhase::SegmentCompleted,
                RunEvent::NextSegment,
            ) => {
                if self.current < self.total {
                    self.current = self.current + 1;
                    self.phase = RunPhase::SegmentStarted;
                    RunAction::StartSegment { number: self.current }
                } else {
                    self.phase = RunPhase::AllCompleted;
                    RunAction::CompleteAll { total: self.total }
                }
            },
            (RunPhase::SegmentStarted, RunEvent::OutputLine) | (
                RunPhase::SegmentStreaming,
                RunEvent::OutputLine,
            ) => {
                self.phase = RunPhase::SegmentStreaming;
                RunAction::ReportProgress { number: self.current }
            },
            (RunPhase::SegmentStarted, RunEvent::ProcessExited { success }) | (
                RunPhase::SegmentStreaming,
                RunEvent::ProcessExited { success },
            ) => {
                if success {
                    self.phase = RunPhase::SegmentCompleted;
                    RunAction::CompleteSegment { number: self.current }
                } else {
                    self.phase = RunPhase::AllFailed;
                    RunAction::Abort { number: self.current }
                }
            },
            _ => RunAction::Ignore,
        }
    }

    /// Whether the run has ended, one way or the other.
    pub fn is_finished(&self) -> (r: bool)
        ensures
            r == (self.phase == RunPhase::AllCompleted || self.phase == RunPhase::AllFailed),
    {
        self.phase == RunPhase::AllCompleted || self.phase == RunPhase::AllFailed
    }
}

#[derive(Debug, Clone, PartialEq)]
/// What the encoder is given for one segment.
pub struct ChapterJob {
    pub output: OutputPath,
    /// The start of the window, as `HH:MM:SS.mmm`.
    pub start_time: String,
    /// The length of the window, as `HH:MM:SS.mmm`.
    pub duration: String,
    pub duration_ms: u64,
}

/// The output path of `chapter` under `structure`.
pub open spec fn planned_path(
    chapter: MergedChapter,
    naming: ChapterNamingFormat,
    structure: SplitStructure,
    base: Seq<char>,
    ext: Seq<char>,
) -> OutputPathView {
    let name = filename_spec(naming, chapter.chapter_number as nat, chapter.title@, ext);
    OutputPathView {
        base,
        dirs: match structure {
            SplitStructure::Flat => Seq::empty(),
            SplitStructure::Hierarchical => hierarchical_dirs(chapter.full_path@, name),
        },
        file_name: name,
    }
}

/// The time window `[start, start + length)` of `chapter` and where its file goes.
pub fn plan_chapter(
    chapter: &MergedChapter,
    naming: &ChapterNamingFormat,
    structure: SplitStructure,
    base: &str,
    extension: &str,
) -> (r: ChapterJob)
    requires
        chapter.start_offset_ms >= 0,
        chapter.length_ms >= 0,
    ensures
        r.output@ == planned_path(*chapter, *naming, structure, base@, extension@),
        r.start_time@ == ms_time_text(chapter.start_offset_ms as nat),
        r.duration@ == ms_time_text(chapter.length_ms as nat),
        r.duration_ms == chapter.length_ms,
{
    let output = match structure {
        SplitStructure::Flat => chapter.get_output_path(base, naming, extension),
        SplitStructure::Hierarchical => chapter.get_hierarchical_output_path(base, naming, extension),
    };
    ChapterJob {
        output,
        start_time: format_time_from_ms(chapter.start_offset_ms),
        duration: format_time_from_ms(chapter.length_ms),
        duration_ms: chapter.length_ms as u64,
    }
}

} // verus!
