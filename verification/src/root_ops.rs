//! The course of the shell's index operations: a full rebuild, adding a
//! root, rebuilding one root, removing one. Each stops the watcher, marks
//! the tray busy, runs the work, reopens the searcher and puts the watcher
//! back; a failure anywhere leaves no half-finished progress behind (the
//! indexing status back to idle, the tray not busy) and still puts the
//! watcher back on the roots the index has.
//!
//! The shell does the work; this module says, from the phase and what the
//! last piece of work reported, which steps come next.

use vstd::prelude::*;

verus! {

/// The operations.
#[derive(Debug, Clone, Copy, PartialEq, Eq, Structural)]
pub enum RootOp {
    /// Build the index from scratch for one directory.
    Rebuild,
    /// Add a root to the index (an incremental scan of it).
    AddRoot,
    /// Remove one root's documents and index it again.
    RebuildRoot,
    /// Remove one root and its documents.
    RemoveRoot,
}

/// A step for the shell to take, in order.
#[derive(Debug, Clone, Copy, PartialEq, Eq, Structural)]
pub enum OpStep {
    /// Stop the watcher (and its OCR workers), releasing the index writer.
    StopWatch,
    /// The text phase begins (indexing status).
    BeginText,
    /// Mark the tray busy or not.
    SetBusy(bool),
    RefreshTooltip,
    RefreshMenu,
    /// Clear the indexing progress back to idle.
    ResetIdle,
    /// Tell the window that indexing settled, with the current progress.
    EmitSettled,
    /// Read how many images wait for OCR.
    CountOcrPending,
    /// Open a searcher on the index; report whether it opened.
    OpenSearcher,
    /// Serve searches from the searcher just opened.
    ReplaceSearcher,
    /// Serve no searches.
    ClearSearcher,
    /// Try to open a searcher on whatever index is there; serve it, or none.
    ReopenSearcherOrClear,
    /// Remember the rebuilt directory as the target.
    RememberTarget,
    /// Watch the rebuilt directory.
    WatchTarget,
    /// Watch the roots the index records, when they can be read.
    WatchRegisteredRoots,
    /// The OCR phase begins with the images counted.
    BeginOcr,
}

/// Where an operation stands.
#[derive(Debug, Clone, Copy, PartialEq, Eq, Structural)]
pub enum OpPhase {
    NotStarted,
    /// The work runs.
    Working,
    /// The work is done; the searcher is being opened.
    Reopening,
    Finished,
}

/// What the shell reports.
#[derive(Debug, Clone, Copy, PartialEq, Eq, Structural)]
pub enum OpEvent {
    Start,
    /// The work failed (including opening the index writer for it).
    WorkFailed,
    WorkDone,
    SearcherFailed,
    SearcherOpened,
}

/// The cleanup after a failure: progress back to idle, the window told,
/// the tray not busy; a failed full rebuild serves whatever index can still
/// be opened. The watcher goes back on the recorded roots.
pub open spec fn failure_steps(op: RootOp, searcher_step: OpStep) -> Seq<OpStep> {
    match op {
        RootOp::Rebuild => seq![
            OpStep::ResetIdle,
            OpStep::EmitSettled,
            OpStep::SetBusy(false),
            OpStep::RefreshTooltip,
            searcher_step,
            OpStep::WatchRegisteredRoots,
        ],
        _ => seq![
            OpStep::ResetIdle,
            OpStep::EmitSettled,
            OpStep::SetBusy(false),
            OpStep::RefreshTooltip,
            OpStep::WatchRegisteredRoots,
        ],
    }
}

/// The next phase and steps (see the module documentation). An event that
/// does not fit the phase changes nothing.
pub open spec fn op_next(op: RootOp, phase: OpPhase, ev: OpEvent) -> (OpPhase, Seq<OpStep>) {
    match (phase, ev) {
        (OpPhase::NotStarted, OpEvent::Start) => (
            OpPhase::Working,
            if op == RootOp::RemoveRoot {
                seq![OpStep::StopWatch, OpStep::SetBusy(true), OpStep::RefreshTooltip]
            } else {
                seq![
                    OpStep::StopWatch,
                    OpStep::BeginText,
                    OpStep::SetBusy(true),
                    OpStep::RefreshTooltip,
                ]
            },
        ),
        (OpPhase::Working, OpEvent::WorkFailed) => (
            OpPhase::Finished,
            failure_steps(op, OpStep::ReopenSearcherOrClear),
        ),
        (OpPhase::Working, OpEvent::WorkDone) => (
            OpPhase::Reopening,
            if op == RootOp::RemoveRoot {
                seq![OpStep::OpenSearcher]
            } else {
                seq![OpStep::CountOcrPending, OpStep::OpenSearcher]
            },
        ),
        (OpPhase::Reopening, OpEvent::SearcherFailed) => (
            OpPhase::Finished,
            failure_steps(op, OpStep::ClearSearcher),
        ),
        (OpPhase::Reopening, OpEvent::SearcherOpened) => (
            OpPhase::Finished,
            match op {
                RootOp::Rebuild => seq![
                    OpStep::ReplaceSearcher,
                    OpStep::RememberTarget,
                    OpStep::WatchTarget,
                    OpStep::BeginOcr,
                    OpStep::EmitSettled,
                    OpStep::SetBusy(false),
                    OpStep::RefreshMenu,
                    OpStep::RefreshTooltip,
                ],
                RootOp::RemoveRoot => seq![
                    OpStep::ReplaceSearcher,
                    OpStep::WatchRegisteredRoots,
                    OpStep::SetBusy(false),
                    OpStep::RefreshMenu,
                    OpStep::RefreshTooltip,
                ],
                _ => seq![
                    OpStep::ReplaceSearcher,
                    OpStep::WatchRegisteredRoots,
                    OpStep::BeginOcr,
                    OpStep::EmitSettled,
                    OpStep::SetBusy(false),
                    OpStep::RefreshMenu,
                    OpStep::RefreshTooltip,
                ],
            },
        ),
        _ => (phase, Seq::empty()),
    }
}

fn failure_plan(op: RootOp, searcher_step: OpStep) -> (v: Vec<OpStep>)
    ensures
        v@ == failure_steps(op, searcher_step),
{
    let v = match op {
        RootOp::Rebuild => vec![
            OpStep::ResetIdle,
            OpStep::EmitSettled,
            OpStep::SetBusy(false),
            OpStep::RefreshTooltip,
            searcher_step,
            OpStep::WatchRegisteredRoots,
        ],
        _ => vec![
            OpStep::ResetIdle,
            OpStep::EmitSettled,
            OpStep::SetBusy(false),
            OpStep::RefreshTooltip,
            OpStep::WatchRegisteredRoots,
        ],
    };
    assert(v@ =~= failure_steps(op, searcher_step));
    v
}

/// The next phase and the steps to take (see [`op_next`]).
pub fn op_step(op: RootOp, phase: OpPhase, ev: OpEvent) -> (r: (OpPhase, Vec<OpStep>))
    ensures
        (r.0, r.1@) == op_next(op, phase, ev),
{
    match (phase, ev) {
        (OpPhase::NotStarted, OpEvent::Start) => {
            let v = if op == RootOp::RemoveRoot {
                vec![OpStep::StopWatch, OpStep::SetBusy(true), OpStep::RefreshTooltip]
            } else {
                vec![OpStep::StopWatch, OpStep::BeginText, OpStep::SetBusy(true), OpStep::RefreshTooltip]
            };
            assert(v@ =~= op_next(op, phase, ev).1);
            (OpPhase::Working, v)
        },
        (OpPhase::Working, OpEvent::WorkFailed) => (
            OpPhase::Finished,
            failure_plan(op, OpStep::ReopenSearcherOrClear),
        ),
        (OpPhase::Working, OpEvent::WorkDone) => {
            let v = if op == RootOp::RemoveRoot {
                vec![OpStep::OpenSearcher]
            } else {
                vec![OpStep::CountOcrPending, OpStep::OpenSearcher]
            };
            assert(v@ =~= op_next(op, phase, ev).1);
            (OpPhase::Reopening, v)
        },
        (OpPhase::Reopening, OpEvent::SearcherFailed) => (
            OpPhase::Finished,
            failure_plan(op, OpStep::ClearSearcher),
        ),
        (OpPhase::Reopening, OpEvent::SearcherOpened) => {
            let v = match op {
                RootOp::Rebuild => vec![
                    OpStep::ReplaceSearcher,
                    OpStep::RememberTarget,
                    OpStep::WatchTarget,
                    OpStep::BeginOcr,
                    OpStep::EmitSettled,
                    OpStep::SetBusy(false),
                    OpStep::RefreshMenu,
                    OpStep::RefreshTooltip,
                ],
                RootOp::RemoveRoot => vec![
                    OpStep::ReplaceSearcher,
                    OpStep::WatchRegisteredRoots,
                    OpStep::SetBusy(false),
                    OpStep::RefreshMenu,
                    OpStep::RefreshTooltip,
                ],
                _ => vec![
                    OpStep::ReplaceSearcher,
                    OpStep::WatchRegisteredRoots,
                    OpStep::BeginOcr,
                    OpStep::EmitSettled,
                    OpStep::SetBusy(false),
                    OpStep::RefreshMenu,
                    OpStep::RefreshTooltip,
                ],
            };
            assert(v@ =~= op_next(op, phase, ev).1);
            (OpPhase::Finished, v)
        },
        _ => {
            let v: Vec<OpStep> = Vec::new();
            assert(v@ =~= op_next(op, phase, ev).1);
            (phase, v)
        },
    }
}

/// Adding a folder builds the index from scratch when there is none yet (or
/// its roots cannot be read), and adds a root to it otherwise.
pub fn add_folder_op(has_index: bool) -> (op: RootOp)
    ensures
        op == (if has_index {
            RootOp::AddRoot
        } else {
            RootOp::Rebuild
        }),
{
    if has_index {
        RootOp::AddRoot
    } else {
        RootOp::Rebuild
    }
}

/// The window event announcing the end of an operation.
pub const EVENT_REBUILD_DONE: &'static str = "dowse://rebuild-done";
pub const EVENT_ROOT_REMOVED: &'static str = "dowse://root-removed";
pub const EVENT_REBUILD_ERROR: &'static str = "dowse://rebuild-error";

/// The event that ends an operation: an error for any failure; a removal
/// announces the documents removed, the others the documents indexed.
pub fn completion_event(op: RootOp, ok: bool) -> (e: &'static str)
    ensures
        e@ == (if !ok {
            EVENT_REBUILD_ERROR@
        } else if op == RootOp::RemoveRoot {
            EVENT_ROOT_REMOVED@
        } else {
            EVENT_REBUILD_DONE@
        }),
{
    if !ok {
        EVENT_REBUILD_ERROR
    } else if op == RootOp::RemoveRoot {
        EVENT_ROOT_REMOVED
    } else {
        EVENT_REBUILD_DONE
    }
}

// ---------------------------------------------------------------------------
// What every run guarantees
// ---------------------------------------------------------------------------

/// The phase and all the steps after feeding the events in order.
pub open spec fn run_ops(op: RootOp, evs: Seq<OpEvent>) -> (OpPhase, Seq<OpStep>)
    decreases evs.len(),
{
    if evs.len() == 0 {
        (OpPhase::NotStarted, Seq::empty())
    } else {
        let prev = run_ops(op, evs.drop_last());
        let next = op_next(op, prev.0, evs.last());
        (next.0, prev.1 + next.1)
    }
}

/// The busy flag the steps leave the tray with (`None`: they never set it).
pub open spec fn last_busy(steps: Seq<OpStep>) -> Option<bool>
    decreases steps.len(),
{
    if steps.len() == 0 {
        None
    } else {
        match steps.last() {
            OpStep::SetBusy(b) => Some(b),
            _ => last_busy(steps.drop_last()),
        }
    }
}

/// The steps contain `s` after position `i`.
pub open spec fn has_step_after(steps: Seq<OpStep>, i: int, s: OpStep) -> bool {
    exists|j: int| i < j < steps.len() && steps[j] == s
}

/// The runs that end an operation: it fails at the work, fails to reopen
/// the searcher, or succeeds.
pub open spec fn finishing_run(evs: Seq<OpEvent>) -> bool {
    evs == seq![OpEvent::Start, OpEvent::WorkFailed] || evs == seq![
        OpEvent::Start,
        OpEvent::WorkDone,
        OpEvent::SearcherFailed,
    ] || evs == seq![OpEvent::Start, OpEvent::WorkDone, OpEvent::SearcherOpened]
}

proof fn lemma_last_busy_append(a: Seq<OpStep>, b: Seq<OpStep>)
    ensures
        last_busy(a + b) == (match last_busy(b) {
            Some(x) => Some(x),
            None => last_busy(a),
        }),
    decreases b.len(),
{
    if b.len() == 0 {
        assert(a + b =~= a);
    } else {
        assert((a + b).drop_last() =~= a + b.drop_last());
        assert((a + b).last() == b.last());
        lemma_last_busy_append(a, b.drop_last());
    }
}

/// However an operation ends, the tray is left not busy, the watcher that
/// was stopped is put back, and the phase is finished; when it fails, the
/// progress is cleared to idle and nothing starts a phase after that.
pub proof fn lemma_operation_ends_settled(op: RootOp, evs: Seq<OpEvent>)
    requires
        finishing_run(evs),
    ensures
        ({
            let r = run_ops(op, evs);
            &&& r.0 == OpPhase::Finished
            &&& r.1[0] == OpStep::StopWatch
            &&& last_busy(r.1) == Some(false)
            &&& (has_step_after(r.1, 0, OpStep::WatchRegisteredRoots) || has_step_after(
                r.1,
                0,
                OpStep::WatchTarget,
            ))
            &&& evs.last() != OpEvent::SearcherOpened ==> exists|i: int|
                0 <= i < r.1.len() && r.1[i] == OpStep::ResetIdle && !has_step_after(
                    r.1,
                    i,
                    OpStep::BeginText,
                ) && !has_step_after(r.1, i, OpStep::BeginOcr)
        }),
{
    let e0 = seq![OpEvent::Start];
    let e1 = evs.drop_last();
    assert(e0.drop_last() =~= Seq::<OpEvent>::empty());
    assert(e0.last() == OpEvent::Start);
    let start = op_next(op, OpPhase::NotStarted, OpEvent::Start).1;
    let r0 = run_ops(op, e0);
    assert(run_ops(op, e0.drop_last()) == (OpPhase::NotStarted, Seq::<OpStep>::empty()));
    assert(r0.1 =~= Seq::<OpStep>::empty() + start);
    assert(r0.0 == OpPhase::Working);
    assert(r0.1 == start);
    assert(last_busy(start) == Some(true)) by {
        reveal_with_fuel(last_busy, 3);
    }
    if evs == seq![OpEvent::Start, OpEvent::WorkFailed] {
        assert(e1 =~= e0);
        let f = failure_steps(op, OpStep::ReopenSearcherOrClear);
        let all = start + f;
        assert(run_ops(op, evs).1 == all);
        assert(last_busy(f) == Some(false)) by {
            reveal_with_fuel(last_busy, 4);
        }
        lemma_last_busy_append(start, f);
        assert(all[all.len() - 1] == OpStep::WatchRegisteredRoots);
        let i = start.len() as int;
        assert(all[i] == OpStep::ResetIdle);
        assert(!has_step_after(all, i, OpStep::BeginText));
        assert(!has_step_after(all, i, OpStep::BeginOcr));
    } else {
        let e2 = seq![OpEvent::Start, OpEvent::WorkDone];
        assert(e2.drop_last() =~= e0);
        assert(e1 =~= e2);
        let mid = if op == RootOp::RemoveRoot {
            seq![OpStep::OpenSearcher]
        } else {
            seq![OpStep::CountOcrPending, OpStep::OpenSearcher]
        };
        assert(run_ops(op, e2).0 == OpPhase::Reopening);
        assert(run_ops(op, e2).1 == start + mid);
        assert(last_busy(mid) == None::<bool>) by {
            reveal_with_fuel(last_busy, 3);
        }
        lemma_last_busy_append(start, mid);
        let tail = op_next(op, OpPhase::Reopening, evs.last()).1;
        let all = (start + mid) + tail;
        assert(run_ops(op, evs).1 == all);
        assert(last_busy(tail) == Some(false)) by {
            reveal_with_fuel(last_busy, 5);
        }
        lemma_last_busy_append(start + mid, tail);
        let base = (start + mid).len() as int;
        if evs.last() == OpEvent::SearcherFailed {
            assert(all[all.len() - 1] == OpStep::WatchRegisteredRoots);
            assert(all[base] == OpStep::ResetIdle);
            assert(!has_step_after(all, base, OpStep::BeginText));
            assert(!has_step_after(all, base, OpStep::BeginOcr));
        } else if op == RootOp::Rebuild {
            assert(all[base + 2] == OpStep::WatchTarget);
        } else {
            assert(all[base + 1] == OpStep::WatchRegisteredRoots);
        }
    }
}

} // verus!
