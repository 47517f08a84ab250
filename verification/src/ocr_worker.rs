//! Decisions of the OCR worker pool: how many workers run, when a batch of
//! results is written to the index, what a worker does next, and what a
//! one-off drain reports.

use vstd::prelude::*;

verus! {

pub const MIN_WORKERS: usize = 2;
pub const MAX_WORKERS: usize = 4;
/// The number of workers started when the caller does not say.
pub const DEFAULT_WORKERS: usize = MAX_WORKERS;
/// A batch is written once it holds this many results.
pub const OCR_BATCH_MAX: usize = 32;
/// A batch is written once its first result is this old, in milliseconds.
pub const OCR_BATCH_WINDOW_MS: u64 = 5000;
/// How long an idle worker waits before looking at the queue again, in
/// milliseconds.
pub const IDLE_POLL_MS: u64 = 200;

/// The number of workers actually started: the request, kept within
/// [`MIN_WORKERS`] and [`MAX_WORKERS`].
pub fn worker_count(requested: usize) -> (n: usize)
    ensures
        n == (if requested < MIN_WORKERS {
            MIN_WORKERS
        } else if requested > MAX_WORKERS {
            MAX_WORKERS
        } else {
            requested
        }),
{
    if requested < MIN_WORKERS {
        MIN_WORKERS
    } else if requested > MAX_WORKERS {
        MAX_WORKERS
    } else {
        requested
    }
}

/// Whether a batch is due: full, or its first result waited long enough.
pub fn batch_due(batch_len: usize, oldest_age_ms: Option<u64>) -> (b: bool)
    ensures
        b == (batch_len >= OCR_BATCH_MAX || match oldest_age_ms {
            Some(a) => a >= OCR_BATCH_WINDOW_MS,
            None => false,
        }),
{
    batch_len >= OCR_BATCH_MAX || match oldest_age_ms {
        Some(a) => a >= OCR_BATCH_WINDOW_MS,
        None => false,
    }
}

/// What a worker sees at the top of its loop.
#[derive(Debug, Clone, Copy, PartialEq, Eq, Structural)]
pub enum WorkerEvent {
    /// It took an image and recognised it; the batch now holds this many
    /// results, the oldest of them this old.
    Recognised { batch_len: usize, oldest_age_ms: u64 },
    /// The queue was empty.
    QueueEmpty { batch_len: usize },
}

/// What the worker does next.
#[derive(Debug, Clone, Copy, PartialEq, Eq, Structural)]
pub enum WorkerAction {
    /// Write the batch to the index, then go on.
    Flush,
    /// Write the batch (if any) and stop.
    FlushAndStop,
    /// Sleep a little and look at the queue again.
    Sleep,
    /// Write the batch, then sleep a little.
    FlushThenSleep,
    /// Take the next image.
    Continue,
    /// Stop.
    Stop,
}

/// The worker's step: after a result, a due batch is written and a stop
/// request ends the loop (writing what is left); on an empty queue the half
/// batch is written at once (results must not wait for the next image), and
/// the worker stops if asked, otherwise it sleeps.
pub open spec fn worker_step_spec(ev: WorkerEvent, stop: bool) -> WorkerAction {
    match ev {
        WorkerEvent::Recognised { batch_len, oldest_age_ms } => {
            if stop {
                WorkerAction::FlushAndStop
            } else if batch_len >= OCR_BATCH_MAX || oldest_age_ms >= OCR_BATCH_WINDOW_MS {
                WorkerAction::Flush
            } else {
                WorkerAction::Continue
            }
        },
        WorkerEvent::QueueEmpty { batch_len } => {
            if stop {
                WorkerAction::FlushAndStop
            } else if batch_len > 0 {
                WorkerAction::FlushThenSleep
            } else {
                WorkerAction::Sleep
            }
        },
    }
}

pub fn worker_step(ev: WorkerEvent, stop: bool) -> (a: WorkerAction)
    ensures
        a == worker_step_spec(ev, stop),
{
    match ev {
        WorkerEvent::Recognised { batch_len, oldest_age_ms } => {
            if stop {
                WorkerAction::FlushAndStop
            } else if batch_due(batch_len, Some(oldest_age_ms)) {
                WorkerAction::Flush
            } else {
                WorkerAction::Continue
            }
        },
        WorkerEvent::QueueEmpty { batch_len } => {
            if stop {
                WorkerAction::FlushAndStop
            } else if batch_len > 0 {
                WorkerAction::FlushThenSleep
            } else {
                WorkerAction::Sleep
            }
        },
    }
}

/// The outcome of draining the OCR queue once.
#[derive(Debug, Clone, Copy, PartialEq, Eq, Structural)]
pub struct OcrDrainStats {
    /// Whether an OCR language pack is available; without one nothing is
    /// processed, which is no error.
    pub available: bool,
    /// The images processed by this run.
    pub processed: usize,
}

/// The drain's report from the queue length before and after the run.
pub fn drain_stats(available: bool, before: usize, remaining: usize) -> (s: OcrDrainStats)
    ensures
        s.available == available,
        s.processed == (if available && before > remaining {
            before - remaining
        } else {
            0
        }),
{
    if !available {
        return OcrDrainStats { available: false, processed: 0 };
    }
    OcrDrainStats { available: true, processed: before.saturating_sub(remaining) }
}

} // verus!
