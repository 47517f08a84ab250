//! Progress of an index build, as the window and the tray show it: the text
//! phase counts files (the total is unknown), the image OCR phase counts down
//! a known queue.

use vstd::prelude::*;

verus! {

/// The phase an index build is in; `Idle` when none runs.
#[derive(Debug, Clone, Copy, PartialEq, Eq, Structural)]
pub enum IndexingPhase {
    Idle,
    Text,
    Ocr,
}

impl Default for IndexingPhase {
    fn default() -> (p: IndexingPhase)
        ensures
            p == IndexingPhase::Idle,
    {
        IndexingPhase::Idle
    }
}

/// One snapshot of the progress.
#[derive(Debug)]
pub struct IndexingSnapshot {
    pub phase: IndexingPhase,
    pub text_processed: usize,
    pub text_current_file: String,
    pub ocr_processed: usize,
    pub ocr_total: usize,
}

/// The mathematical content of an [`IndexingSnapshot`].
pub struct SnapshotView {
    pub phase: IndexingPhase,
    pub text_processed: usize,
    pub text_current_file: Seq<char>,
    pub ocr_processed: usize,
    pub ocr_total: usize,
}

impl View for IndexingSnapshot {
    type V = SnapshotView;

    open spec fn view(&self) -> SnapshotView {
        SnapshotView {
            phase: self.phase,
            text_processed: self.text_processed,
            text_current_file: self.text_current_file@,
            ocr_processed: self.ocr_processed,
            ocr_total: self.ocr_total,
        }
    }
}

/// Nothing running, every counter at zero.
pub open spec fn idle_view() -> SnapshotView {
    SnapshotView {
        phase: IndexingPhase::Idle,
        text_processed: 0,
        text_current_file: Seq::empty(),
        ocr_processed: 0,
        ocr_total: 0,
    }
}

/// The OCR count never runs past its total.
pub open spec fn snapshot_wf(s: SnapshotView) -> bool {
    s.ocr_processed <= s.ocr_total
}

fn idle_snapshot() -> (s: IndexingSnapshot)
    ensures
        s@ == idle_view(),
{
    IndexingSnapshot {
        phase: IndexingPhase::Idle,
        text_processed: 0,
        text_current_file: String::new(),
        ocr_processed: 0,
        ocr_total: 0,
    }
}

impl Default for IndexingSnapshot {
    fn default() -> (s: IndexingSnapshot)
        ensures
            s@ == idle_view(),
    {
        idle_snapshot()
    }
}

/// The progress state of the process.
pub struct IndexingStatus {
    snap: IndexingSnapshot,
}

impl View for IndexingStatus {
    type V = SnapshotView;

    closed spec fn view(&self) -> SnapshotView {
        self.snap@
    }
}

impl IndexingStatus {
    pub fn new() -> (s: IndexingStatus)
        ensures
            s@ == idle_view(),
    {
        IndexingStatus { snap: idle_snapshot() }
    }

    /// A copy of the current progress.
    pub fn snapshot(&self) -> (s: IndexingSnapshot)
        ensures
            s@ == self@,
    {
        IndexingSnapshot {
            phase: self.snap.phase,
            text_processed: self.snap.text_processed,
            text_current_file: self.snap.text_current_file.clone(),
            ocr_processed: self.snap.ocr_processed,
            ocr_total: self.snap.ocr_total,
        }
    }

    /// A full build starts: the previous round is cleared and the text phase
    /// begins.
    pub fn begin_text(&mut self)
        ensures
            final(self)@ == (SnapshotView { phase: IndexingPhase::Text, ..idle_view() }),
    {
        self.snap = idle_snapshot();
        self.snap.phase = IndexingPhase::Text;
    }

    /// A progress report of the text phase: files done so far and the file at
    /// hand.
    pub fn set_text_progress(&mut self, processed: usize, current_file: String)
        ensures
            final(self)@ == (SnapshotView {
                phase: IndexingPhase::Text,
                text_processed: processed,
                text_current_file: current_file@,
                ..old(self)@
            }),
    {
        self.snap.phase = IndexingPhase::Text;
        self.snap.text_processed = processed;
        self.snap.text_current_file = current_file;
    }

    /// The text phase is over and `total` images wait for OCR; with none
    /// waiting there is no OCR phase and the state goes back to idle.
    pub fn begin_ocr(&mut self, total: usize)
        ensures
            total == 0 ==> final(self)@ == idle_view(),
            total > 0 ==> final(self)@ == (SnapshotView {
                phase: IndexingPhase::Ocr,
                ocr_total: total,
                ocr_processed: 0,
                ..old(self)@
            }),
            snapshot_wf(final(self)@),
    {
        if total == 0 {
            self.snap = idle_snapshot();
            return;
        }
        self.snap.phase = IndexingPhase::Ocr;
        self.snap.ocr_total = total;
        self.snap.ocr_processed = 0;
    }

    /// `pending` images are left after an OCR batch. None left goes back to
    /// idle; more left than the total known so far raises the total (images
    /// found meanwhile), so that the processed count is the total minus what
    /// is left.
    pub fn set_ocr_pending(&mut self, pending: usize)
        ensures
            pending == 0 ==> final(self)@ == idle_view(),
            pending > 0 ==> final(self)@ == (SnapshotView {
                phase: IndexingPhase::Ocr,
                ocr_total: if pending > old(self)@.ocr_total {
                    pending
                } else {
                    old(self)@.ocr_total
                },
                ocr_processed: (if pending > old(self)@.ocr_total {
                    pending
                } else {
                    old(self)@.ocr_total
                } - pending) as usize,
                ..old(self)@
            }),
            pending > 0 ==> final(self)@.ocr_processed + pending == final(self)@.ocr_total,
            snapshot_wf(final(self)@),
    {
        if pending == 0 {
            self.snap = idle_snapshot();
            return;
        }
        self.snap.phase = IndexingPhase::Ocr;
        if pending > self.snap.ocr_total {
            self.snap.ocr_total = pending;
        }
        self.snap.ocr_processed = self.snap.ocr_total - pending;
    }

    /// Back to idle, with no half-finished progress left (after a failure).
    pub fn reset_idle(&mut self)
        ensures
            final(self)@ == idle_view(),
    {
        self.snap = idle_snapshot();
    }
}

/// Reporting text progress leaves the OCR counters alone, so the OCR count
/// stays within its total (the other operations establish that in their own
/// contracts).
pub proof fn lemma_text_progress_keeps_ocr_counts(before: SnapshotView, after: SnapshotView, processed: usize, file: Seq<char>)
    requires
        snapshot_wf(before),
        after == (SnapshotView {
            phase: IndexingPhase::Text,
            text_processed: processed,
            text_current_file: file,
            ..before
        }),
    ensures
        snapshot_wf(after),
        after.ocr_processed == before.ocr_processed,
        after.ocr_total == before.ocr_total,
{
}

} // verus!
