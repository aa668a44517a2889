//! The decisions of one scan session: consume walk events, emit progress,
//! pause, finish, or stop on cancellation. The caller performs the walk,
//! the pauses and the publishing.

use crate::policy::{emit_due, pause_after, pause_due, should_emit_progress, ScanConfig};
use crate::snapshot::{aggregated, ScanSummary};
use crate::tree::{record_effect, record_ok, represents, Aggregator, WalkEntry};
use vstd::prelude::*;

verus! {

/// Where a session stands.
#[derive(Clone, Copy, PartialEq, Eq, Structural, Debug)]
pub enum ScanPhase {
    Walking,
    Completed,
    Cancelled,
    Failed,
}

/// What the walk delivered next.
pub enum WalkEvent {
    Entry(WalkEntry),
    /// An entry that could not be read; it is skipped.
    Unreadable,
    /// The walk is exhausted.
    Finished,
}

/// What the caller does next.
pub enum ScanAction {
    /// The session is over; nothing is published.
    Idle,
    /// Pause `pause_ms` milliseconds (none when zero), publish the progress
    /// snapshot if there is one, and deliver the next event.
    Continue { pause_ms: u64, progress: Option<ScanSummary> },
    /// Publish the final snapshot; the session is over.
    Complete(ScanSummary),
    /// Publish the cancellation; the session is over.
    Cancelled,
    /// Publish the error; the session is over.
    Failed(String),
}

/// One scan in progress.
pub struct ScanSession {
    config: ScanConfig,
    agg: Aggregator,
    phase: ScanPhase,
}

/// A snapshot of state `a` taken `elapsed_ms` after the start.
pub open spec fn summary_of(s: ScanSummary, a: Aggregator, elapsed_ms: u128) -> bool {
    &&& aggregated(s.root)
    &&& represents(s.root, a.nodes(), 0)
    &&& s.total_bytes == s.root.size_bytes
    &&& s.file_count == s.root.file_count
    &&& s.dir_count == s.root.dir_count
    &&& s.largest_files@ == a.largest_files()
    &&& s.duration_ms == elapsed_ms
}

/// What one step of a walking session does.
pub open spec fn step_effect(
    a: ScanSession,
    b: ScanSession,
    event: WalkEvent,
    cancel_requested: bool,
    ms_since_emit: u64,
    elapsed_ms: u128,
    r: ScanAction,
) -> bool {
    match event {
        WalkEvent::Finished => {
            &&& b.phase() == ScanPhase::Completed
            &&& b.aggregator() == a.aggregator()
            &&& r matches ScanAction::Complete(s) && summary_of(s, a.aggregator(), elapsed_ms)
        },
        WalkEvent::Unreadable => {
            &&& b.aggregator() == a.aggregator()
            &&& cancel_requested ==> b.phase() == ScanPhase::Cancelled && r is Cancelled
            &&& !cancel_requested ==> b.phase() == ScanPhase::Walking && r == (ScanAction::Continue { pause_ms: 0, progress: None })
        },
        WalkEvent::Entry(e) => {
            let f = a.config().filters@;
            &&& cancel_requested ==> b.phase() == ScanPhase::Cancelled && r is Cancelled && b.aggregator() == a.aggregator()
            &&& !cancel_requested && !record_ok(a.aggregator(), e, f) ==> b.phase() == ScanPhase::Failed && r is Failed && b.aggregator() == a.aggregator()
            &&& !cancel_requested && record_ok(a.aggregator(), e, f) ==> {
                &&& b.phase() == ScanPhase::Walking
                &&& record_effect(a.aggregator(), b.aggregator(), e, f)
                &&& r matches ScanAction::Continue { pause_ms, progress }
                &&& pause_ms == pause_due(a.config(), b.processed())
                &&& (progress is Some <==> emit_due(a.config(), b.processed(), ms_since_emit))
                &&& (progress matches Some(s) ==> summary_of(s, b.aggregator(), elapsed_ms))
            }
        },
    }
}

/// What one step does: nothing once the session is over, else `step_effect`.
pub open spec fn step_spec(
    a: ScanSession,
    b: ScanSession,
    event: WalkEvent,
    cancel_requested: bool,
    ms_since_emit: u64,
    elapsed_ms: u128,
    r: ScanAction,
) -> bool {
    if a.phase() != ScanPhase::Walking {
        r is Idle && b == a
    } else {
        step_effect(a, b, event, cancel_requested, ms_since_emit, elapsed_ms, r)
    }
}

impl ScanSession {
    pub closed spec fn phase(&self) -> ScanPhase {
        self.phase
    }

    pub open spec fn processed(&self) -> u64 {
        self.aggregator().processed()
    }

    pub closed spec fn aggregator(&self) -> Aggregator {
        self.agg
    }

    pub closed spec fn config(&self) -> ScanConfig {
        self.config
    }

    pub closed spec fn wf(&self) -> bool {
        self.config.wf() && self.agg.wf()
    }

    /// A session about to walk from the given root.
    pub fn new(root_path: String, root_name: String, config: ScanConfig) -> (r: ScanSession)
        requires
            config.wf(),
        ensures
            r.wf(),
            r.phase() == ScanPhase::Walking,
            r.config() == config,
            r.processed() == 0,
            r.aggregator().chain() == seq![0usize],
            r.aggregator().largest_files().len() == 0,
            r.aggregator().total_bytes() == 0,
            r.aggregator().nodes()[0].total_files == 0,
            r.aggregator().nodes()[0].total_dirs == 0,
            r.aggregator().nodes()[0].children@.len() == 0,
            r.aggregator().nodes()[0].files@.len() == 0,
            r.aggregator().nodes().len() == 1,
            r.aggregator().nodes()[0].path == root_path,
            r.aggregator().nodes()[0].name == root_name,
    {
        ScanSession { config, agg: Aggregator::new(root_path, root_name), phase: ScanPhase::Walking }
    }

    /// The phase, for the caller.
    pub fn current_phase(&self) -> (r: ScanPhase)
        ensures
            r == self.phase(),
    {
        self.phase
    }

    /// Handles the next walk event. `cancel_requested` is the session's
    /// cancellation flag as last observed; `ms_since_emit` is the time since
    /// the last progress snapshot and `elapsed_ms` the time since the start.
    /// Once the session is over, every call is `Idle`. Cancellation is
    /// honoured at the next entry, before it is consumed.
    pub fn step(
        &mut self,
        event: WalkEvent,
        cancel_requested: bool,
        ms_since_emit: u64,
        elapsed_ms: u128,
    ) -> (r: ScanAction)
        requires
            old(self).wf(),
        ensures
            final(self).wf(),
            final(self).config() == old(self).config(),
            step_spec(*old(self), *final(self), event, cancel_requested, ms_since_emit, elapsed_ms, r),
    {
        if self.phase != ScanPhase::Walking {
            return ScanAction::Idle;
        }
        match event {
            WalkEvent::Finished => {
                let summary = self.agg.build_summary(elapsed_ms);
                self.phase = ScanPhase::Completed;
                ScanAction::Complete(summary)
            },
            WalkEvent::Unreadable => {
                if cancel_requested {
                    self.phase = ScanPhase::Cancelled;
                    return ScanAction::Cancelled;
                }
                ScanAction::Continue { pause_ms: 0, progress: None }
            },
            WalkEvent::Entry(entry) => {
                if cancel_requested {
                    self.phase = ScanPhase::Cancelled;
                    return ScanAction::Cancelled;
                }
                if !self.agg.record(&entry, &self.config.filters) {
                    self.phase = ScanPhase::Failed;
                    return ScanAction::Failed(String::from_str("Scan totals exceed the 64-bit range"));
                }
                let processed = self.agg.processed_count();
                let pause_ms = pause_after(processed, &self.config);
                let progress = if should_emit_progress(processed, ms_since_emit, &self.config) {
                    Some(self.agg.build_summary(elapsed_ms))
                } else {
                    None
                };
                ScanAction::Continue { pause_ms, progress }
            },
        }
    }
}

/// No step takes work away: the byte, file and directory totals of the
/// whole scan after a step are at least those before it, so successive
/// snapshots never shrink.
pub proof fn lemma_totals_never_shrink(
    a: ScanSession,
    b: ScanSession,
    event: WalkEvent,
    cancel_requested: bool,
    ms_since_emit: u64,
    elapsed_ms: u128,
    r: ScanAction,
)
    requires
        step_spec(a, b, event, cancel_requested, ms_since_emit, elapsed_ms, r),
    ensures
        b.aggregator().nodes()[0].total_bytes >= a.aggregator().nodes()[0].total_bytes,
        b.aggregator().nodes()[0].total_files >= a.aggregator().nodes()[0].total_files,
        b.aggregator().nodes()[0].total_dirs >= a.aggregator().nodes()[0].total_dirs,
{
}

/// A cancellation is final: once a step answers `Cancelled`, the next step
/// answers `Idle` and changes nothing, so no entry is consumed and no
/// progress or completion follows.
pub proof fn lemma_cancel_is_final(
    a: ScanSession,
    b: ScanSession,
    c: ScanSession,
    first: WalkEvent,
    first_cancel: bool,
    first_ms: u64,
    first_elapsed: u128,
    r1: ScanAction,
    second: WalkEvent,
    second_cancel: bool,
    second_ms: u64,
    second_elapsed: u128,
    r2: ScanAction,
)
    requires
        step_spec(a, b, first, first_cancel, first_ms, first_elapsed, r1),
        r1 is Cancelled,
        step_spec(b, c, second, second_cancel, second_ms, second_elapsed, r2),
    ensures
        b.phase() == ScanPhase::Cancelled,
        r2 is Idle,
        c == b,
{
}

} // verus!
