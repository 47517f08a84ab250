//! Bookkeeping of a full index build: the order in which its tail is made
//! durable, the tallies and progress reports of the file loop, and the retry
//! policy when the index writer is killed by a transient conflict.

use vstd::prelude::*;
use crate::extract::{extension_of, file_extension, max_bytes, IndexRules};
use crate::ocr_queue::{OcrQueue, Stat};
use crate::paths::{components, path_components};
use crate::text::{ascii_lower, string_from_chars, to_ascii_lower};

verus! {

/// The tail of an index commit: the OCR queue is saved first and the index
/// writer committed only after that succeeded. If the queue cannot be saved
/// the commit does not happen and the save's error is returned; otherwise
/// the commit's result is.
///
/// The order is held by the contract itself: the writer's precondition is
/// granted only by a successful save, so the writer can only be called
/// after the save returned `Ok`; and each closure, being `FnOnce`, is called
/// at most once.
pub fn commit_index_tail<E, S, C>(save_ocr_queue: S, commit_writer: C) -> (r: Result<(), E>)
    where
        S: FnOnce() -> Result<(), E>,
        C: FnOnce() -> Result<(), E>,
    requires
        call_requires(save_ocr_queue, ()),
        forall|s: Result<(), E>| call_ensures(save_ocr_queue, (), s) && s is Ok ==> call_requires(commit_writer, ()),
    ensures
        exists|s: Result<(), E>| #![trigger call_ensures(save_ocr_queue, (), s)]
            call_ensures(save_ocr_queue, (), s) && match s {
                Err(_) => r == s,
                Ok(_) => call_ensures(commit_writer, (), r),
            },
{
    let saved = save_ocr_queue();
    match saved {
        Err(e) => Err(e),
        Ok(()) => commit_writer(),
    }
}

/// How many more times removing a directory is tried after a refusal for
/// lack of permission (a handle not yet released).
pub const REMOVE_DIR_ALL_RETRIES: u32 = 4;
/// The first pause before such a retry, in milliseconds; it doubles each
/// time (50, 100, 200, 400).
pub const REMOVE_DIR_ALL_RETRY_BASE_DELAY_MS: u64 = 50;

/// Whether a failed removal is tried again: only a refusal for lack of
/// permission, and only within the retries; the last attempt's error is
/// final.
pub fn retry_dir_removal(attempt: u32, permission_denied: bool) -> (b: bool)
    ensures
        b == (permission_denied && attempt <= REMOVE_DIR_ALL_RETRIES),
{
    permission_denied && attempt <= REMOVE_DIR_ALL_RETRIES
}

/// How many files are handled between two progress reports.
pub const PROGRESS_INTERVAL: usize = 50;
/// How many times a full build is attempted in all.
pub const REBUILD_RETRIES: u32 = 10;
/// The first pause before a retry, in milliseconds.
pub const REBUILD_RETRY_BASE_DELAY_MS: u64 = 300;
/// The longest pause before a retry, in milliseconds.
pub const REBUILD_RETRY_MAX_DELAY_MS: u64 = 3000;

/// The writer threads of attempt `n`: 4 for the first four attempts, 2 for
/// the next three, 1 afterwards (fewer threads make fewer files at once, and
/// meet a scanning antivirus less often).
pub open spec fn threads_for(attempt: u32) -> usize {
    if 1 <= attempt <= 4 {
        4
    } else if 5 <= attempt <= 7 {
        2
    } else {
        1
    }
}

pub fn writer_threads_for_attempt(attempt: u32) -> (n: usize)
    ensures
        n == threads_for(attempt),
{
    if 1 <= attempt && attempt <= 4 {
        4
    } else if 5 <= attempt && attempt <= 7 {
        2
    } else {
        1
    }
}

/// Whether to retry after attempt `attempt` failed: only a transient
/// writer failure is retried, and not after the last attempt.
pub fn should_retry(attempt: u32, transient: bool) -> (b: bool)
    ensures
        b == (attempt < REBUILD_RETRIES && transient),
{
    attempt < REBUILD_RETRIES && transient
}

/// The pause before the next retry: twice the last one, at most the cap.
pub fn next_retry_delay(delay_ms: u64) -> (d: u64)
    ensures
        d == (if 2 * delay_ms < REBUILD_RETRY_MAX_DELAY_MS {
            2 * delay_ms
        } else {
            REBUILD_RETRY_MAX_DELAY_MS as int
        }),
{
    if delay_ms < REBUILD_RETRY_MAX_DELAY_MS / 2 {
        2 * delay_ms
    } else {
        REBUILD_RETRY_MAX_DELAY_MS
    }
}

/// A progress report: files handled so far and the one just handled.
#[derive(Debug, Clone, PartialEq, Eq)]
pub struct IndexProgress {
    pub processed: usize,
    pub path: String,
}

/// What became of one file.
#[derive(Debug, Clone, Copy, PartialEq, Eq, Structural)]
pub enum AddOutcome {
    /// Its text was indexed.
    Indexed,
    /// It had no text to index.
    Skipped,
    /// It is of an extractable kind but over the size limit.
    SkippedOversize,
}

/// The counts of a build; oversize files count among the skipped ones too.
#[derive(Debug, Clone, Copy, PartialEq, Eq, Structural)]
pub struct Tally {
    pub indexed: usize,
    pub skipped: usize,
    pub skipped_oversize: usize,
}

impl Tally {
    pub fn new() -> (t: Tally)
        ensures
            t == (Tally { indexed: 0, skipped: 0, skipped_oversize: 0 }),
    {
        Tally { indexed: 0, skipped: 0, skipped_oversize: 0 }
    }

    /// Counts one file; returns the number handled so far when a progress
    /// report is due (every [`PROGRESS_INTERVAL`] files).
    pub fn record(&mut self, outcome: AddOutcome) -> (report: Option<usize>)
        requires
            old(self).indexed + old(self).skipped < usize::MAX,
            old(self).skipped_oversize <= old(self).skipped,
        ensures
            final(self).indexed == old(self).indexed + (if outcome == AddOutcome::Indexed {
                1int
            } else {
                0
            }),
            final(self).skipped == old(self).skipped + (if outcome == AddOutcome::Indexed {
                0int
            } else {
                1
            }),
            final(self).skipped_oversize == old(self).skipped_oversize + (if outcome
                == AddOutcome::SkippedOversize {
                1int
            } else {
                0
            }),
            final(self).skipped_oversize <= final(self).skipped,
            report == (if (final(self).indexed + final(self).skipped) % (PROGRESS_INTERVAL as int)
                == 0 {
                Some((final(self).indexed + final(self).skipped) as usize)
            } else {
                None
            }),
    {
        match outcome {
            AddOutcome::Indexed => self.indexed = self.indexed + 1,
            AddOutcome::Skipped => self.skipped = self.skipped + 1,
            AddOutcome::SkippedOversize => {
                self.skipped = self.skipped + 1;
                self.skipped_oversize = self.skipped_oversize + 1;
            },
        }
        let processed = self.indexed + self.skipped;
        if processed % PROGRESS_INTERVAL == 0 {
            Some(processed)
        } else {
            None
        }
    }
}

/// What becomes of a file of text: indexed when its text could be
/// extracted; otherwise skipped, counted as oversize when it is of an
/// extractable kind and larger than the limit.
pub open spec fn text_outcome(extracted: bool, extractable: bool, size: Option<u64>, max_file_mb: u64) -> AddOutcome {
    if extracted {
        AddOutcome::Indexed
    } else if extractable && match size {
        Some(n) => n > max_bytes(max_file_mb),
        None => false,
    } {
        AddOutcome::SkippedOversize
    } else {
        AddOutcome::Skipped
    }
}

/// The outcome of a file of text (see [`text_outcome`]); the size is read
/// only for a file whose text could not be extracted.
pub fn text_file_outcome(extracted: bool, extractable: bool, size: Option<u64>, rules: &IndexRules) -> (o: AddOutcome)
    ensures
        o == text_outcome(extracted, extractable, size, rules.max_file_mb),
{
    if extracted {
        return AddOutcome::Indexed;
    }
    let over = match size {
        Some(n) => n > rules.max_file_bytes(),
        None => false,
    };
    if extractable && over {
        AddOutcome::SkippedOversize
    } else {
        AddOutcome::Skipped
    }
}

/// The text an image document is indexed with: the recognised text when
/// the image was recognised with this very stat; otherwise nothing for now,
/// and the image is queued for recognition.
pub fn image_document_content(queue: &mut OcrQueue, path: String, mtime: i64, size: u64) -> (c: String)
    requires
        old(queue).wf(),
    ensures
        final(queue).wf(),
        ({
            let q = old(queue)@;
            let cached = q.processed.contains_key(path@) && q.processed[path@].mtime == mtime
                && q.processed[path@].size == size;
            &&& cached ==> c@ == q.processed[path@].content@ && final(queue)@ == q
            &&& !cached ==> c@ == Seq::<char>::empty() && final(queue)@.pending == q.pending.insert(
                path@,
                Stat { mtime, size },
            ) && final(queue)@.in_flight == q.in_flight.remove(path@) && final(queue)@.processed
                == q.processed
        }),
{
    match queue.cached_content(path.as_str(), mtime, size) {
        Some(c) => c,
        None => {
            queue.enqueue(path, mtime, size);
            String::new()
        },
    }
}

/// The name a document is stored under: the last component of its path;
/// empty when there is none or it is `..`.
pub open spec fn doc_name_of(p: Seq<char>) -> Seq<char> {
    let cs = components(p);
    if cs.len() == 0 || cs.last() == seq!['.', '.'] {
        Seq::empty()
    } else {
        cs.last()
    }
}

/// The name of a document (see [`doc_name_of`]).
pub fn document_name(path: &str) -> (r: String)
    ensures
        r@ == doc_name_of(path@),
{
    let cs = path_components(path);
    if cs.len() == 0 {
        return String::new();
    }
    let last = &cs[cs.len() - 1];
    if last.len() == 2 && last[0] == '.' && last[1] == '.' {
        assert(last@ =~= seq!['.', '.']);
        return String::new();
    }
    assert(last@ != seq!['.', '.']);
    string_from_chars(last)
}

/// The extension stored with a document: its path's extension lower-cased,
/// empty when it has none.
pub open spec fn doc_ext_of(p: Seq<char>) -> Seq<char> {
    match extension_of(p) {
        Some(e) => ascii_lower(e),
        None => Seq::empty(),
    }
}

/// The extension of a document (see [`doc_ext_of`]).
pub fn document_ext(path: &str) -> (r: String)
    ensures
        r@ == doc_ext_of(path@),
{
    match file_extension(path) {
        Some(e) => string_from_chars(&to_ascii_lower(&e)),
        None => String::new(),
    }
}

} // verus!
