//! Bookkeeping shared by the shell's index operations (full rebuild, adding,
//! removing and rebuilding one root): one operation at a time, the progress
//! and result records sent to the window, and counts printed with thousands
//! separators.

use vstd::prelude::*;
use crate::text::{decimal, string_from_chars, u64_to_decimal};

verus! {

/// Exclusive right to run an index operation: while one runs, the others are
/// turned away (the index directory is rebuilt in place and the writers are
/// not re-entrant).
pub struct RebuildGuard {
    busy: bool,
}

/// Proof of holding the exclusive right; hand it back with
/// [`RebuildGuard::end`] when the operation is over.
pub struct RebuildGuardGuard {
    _held: (),
}

impl RebuildGuard {
    pub closed spec fn busy(&self) -> bool {
        self.busy
    }

    pub fn new() -> (g: RebuildGuard)
        ensures
            !g.busy(),
    {
        RebuildGuard { busy: false }
    }

    /// Takes the exclusive right; `None` when an operation already runs.
    pub fn try_begin(&mut self) -> (r: Option<RebuildGuardGuard>)
        ensures
            (r is Some, final(self).busy()) == begin_outcome(old(self).busy()),
    {
        if self.busy {
            None
        } else {
            self.busy = true;
            Some(RebuildGuardGuard { _held: () })
        }
    }

    /// Gives the exclusive right back.
    pub fn end(&mut self, held: RebuildGuardGuard)
        ensures
            !final(self).busy(),
    {
        self.busy = false;
    }

    /// Whether an operation runs.
    pub fn is_busy(&self) -> (b: bool)
        ensures
            b == self.busy(),
    {
        self.busy
    }
}

/// What an attempt to take the right gives, from whether an operation runs:
/// whether it was granted, and whether one runs afterwards.
pub open spec fn begin_outcome(busy: bool) -> (bool, bool) {
    (!busy, true)
}

/// Two operations never run at once: once the right is granted, the next
/// attempt is turned away; once it is given back, the next attempt succeeds.
pub proof fn lemma_rebuild_exclusive(busy: bool)
    ensures
        begin_outcome(busy).0 ==> !begin_outcome(begin_outcome(busy).1).0,
        begin_outcome(false).0,
{
}

/// Progress of the text phase, as sent to the window.
#[derive(Debug, Clone)]
pub struct IndexProgressDto {
    pub processed: usize,
    pub path: String,
    /// The estimated number of files of the text phase (0 when unknown).
    pub total: usize,
}

/// The result of removing a root.
#[derive(Debug, Clone, Copy, PartialEq, Eq, Structural)]
pub struct RemoveRootStatsDto {
    pub removed: usize,
}

/// The first `k` of the digits `ds` of a `total`-digit number, with a comma
/// before every digit that has a positive multiple of three digits after it.
pub open spec fn commas_prefix(ds: Seq<char>, total: int, k: int) -> Seq<char>
    decreases k,
{
    if k <= 0 {
        Seq::empty()
    } else {
        commas_prefix(ds, total, k - 1) + (if k - 1 > 0 && (total - (k - 1)) % 3 == 0 {
            seq![',']
        } else {
            Seq::empty()
        }) + seq![ds[k - 1]]
    }
}

/// Digits grouped by threes from the right (`15287` reads `15,287`).
pub open spec fn with_commas(ds: Seq<char>) -> Seq<char> {
    commas_prefix(ds, ds.len() as int, ds.len() as int)
}

/// A count with thousands separators, for tooltips and menu labels.
pub fn format_count(n: u64) -> (s: String)
    ensures
        s@ == with_commas(decimal(n as nat)),
{
    let digits = u64_to_decimal(n);
    let len = digits.len();
    let mut out: Vec<char> = Vec::new();
    let mut k: usize = 0;
    while k < len
        invariant
            len == digits.len(),
            k <= len,
            out@ == commas_prefix(digits@, len as int, k as int),
        decreases len - k,
    {
        if k > 0 && (len - k) % 3 == 0 {
            out.push(',');
        }
        out.push(digits[k]);
        assert(out@ =~= commas_prefix(digits@, len as int, k + 1));
        k += 1;
    }
    string_from_chars(&out)
}

} // verus!
