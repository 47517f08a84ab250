//! The OCR state of the images of an index: images waiting for OCR
//! (`pending`), images a worker has taken (`in_flight`), and the recognised
//! text of images done (`processed`), each keyed by path and tagged with the
//! file's modification time and size at the time.
//!
//! An image taken by a worker stays accounted for until its result is in:
//! it moves from `pending` to `in_flight`, and from there to `processed` (or
//! back to `pending`). After a crash, whatever was in flight goes back to
//! `pending`, so no image is ever lost between the two.

use vstd::prelude::*;
use crate::meta::strs;
use crate::paths::{display_path, display_text, path_is_under, path_starts_with};
use crate::strmap::StrMap;
use crate::text::str_eq;

verus! {

/// A file's modification time and size when it was queued.
#[derive(Debug, Clone, Copy, PartialEq, Eq, Structural)]
pub struct Stat {
    pub mtime: i64,
    pub size: u64,
}

/// A recognised image: its stat when recognised and the text found (empty
/// when there was none; such images are not tried again).
#[derive(Debug)]
pub struct Processed {
    pub mtime: i64,
    pub size: u64,
    pub content: String,
}

/// The mathematical content of an [`OcrQueue`].
pub struct QueueView {
    pub pending: Map<Seq<char>, Stat>,
    pub in_flight: Map<Seq<char>, Stat>,
    pub processed: Map<Seq<char>, Processed>,
}

/// The OCR queue of one index.
pub struct OcrQueue {
    pending: StrMap<Stat>,
    in_flight: StrMap<Stat>,
    processed: StrMap<Processed>,
}

impl View for OcrQueue {
    type V = QueueView;

    closed spec fn view(&self) -> QueueView {
        QueueView { pending: self.pending@, in_flight: self.in_flight@, processed: self.processed@ }
    }
}

/// The text recognised for `path` with exactly this stat, if any.
pub open spec fn cached_text(q: QueueView, path: Seq<char>, mtime: i64, size: u64) -> Option<Seq<char>> {
    if q.processed.contains_key(path) && q.processed[path].mtime == mtime && q.processed[path].size
        == size {
        Some(q.processed[path].content@)
    } else {
        None
    }
}

/// Waiting and taken images are apart.
pub open spec fn queue_apart(q: QueueView) -> bool {
    forall|k: Seq<char>| !(#[trigger] q.pending.contains_key(k) && q.in_flight.contains_key(k))
}

/// The number of images not done yet, saturated at `usize::MAX`.
pub open spec fn outstanding(q: QueueView) -> int {
    let n = q.pending.len() as int + q.in_flight.len() as int;
    if n > usize::MAX {
        usize::MAX as int
    } else {
        n
    }
}

/// The singleton key of an index directory: the same directory written with
/// or without the extended-length prefix shares one queue.
pub fn registry_key(index_dir: &str) -> (k: String)
    ensures
        k@ == display_text(index_dir@),
{
    display_path(index_dir)
}

impl OcrQueue {
    pub closed spec fn wf(&self) -> bool {
        &&& self.pending.wf()
        &&& self.in_flight.wf()
        &&& self.processed.wf()
        &&& queue_apart(self@)
    }

    /// An empty queue (no state on disk yet).
    pub fn new() -> (q: OcrQueue)
        ensures
            q.wf(),
            q@.pending == Map::<Seq<char>, Stat>::empty(),
            q@.in_flight == Map::<Seq<char>, Stat>::empty(),
            q@.processed == Map::<Seq<char>, Processed>::empty(),
    {
        OcrQueue { pending: StrMap::new(), in_flight: StrMap::new(), processed: StrMap::new() }
    }

    /// The queue as read back from disk: images that were in flight when the
    /// state was written (a worker had taken them, their result was not in)
    /// go back to waiting, so that they are recognised again.
    pub fn recover(pending: StrMap<Stat>, in_flight: StrMap<Stat>, processed: StrMap<Processed>) -> (q: OcrQueue)
        requires
            pending.wf(),
            in_flight.wf(),
            processed.wf(),
        ensures
            q.wf(),
            q@.pending == pending@.union_prefer_right(in_flight@),
            q@.in_flight == Map::<Seq<char>, Stat>::empty(),
            q@.processed == processed@,
    {
        let mut pending = pending;
        let ghost p0 = pending@;
        let entries = in_flight.entries();
        let mut i: usize = 0;
        while i < entries.len()
            invariant
                pending.wf(),
                i <= entries@.len(),
                crate::strmap::map_of(entries@) == in_flight@,
                crate::strmap::distinct_keys(entries@),
                pending@ == p0.union_prefer_right(crate::strmap::map_of(entries@.take(i as int))),
            decreases entries.len() - i,
        {
            let ghost before = pending@;
            pending.insert(entries[i].0.clone(), entries[i].1);
            proof {
                assert(entries@.take(i + 1).drop_last() =~= entries@.take(i as int));
                assert(entries@.take(i + 1).last() == entries@[i as int]);
                assert(pending@ =~= p0.union_prefer_right(crate::strmap::map_of(entries@.take(i + 1))));
            }
            i += 1;
        }
        assert(entries@.take(entries@.len() as int) =~= entries@);
        let q = OcrQueue { pending, in_flight: StrMap::new(), processed };
        assert(queue_apart(q@));
        q
    }

    /// The recognised text of an image, when it was recognised with this very
    /// modification time and size.
    pub fn cached_content(&self, path: &str, mtime: i64, size: u64) -> (r: Option<String>)
        requires
            self.wf(),
        ensures
            match r {
                Some(c) => cached_text(self@, path@, mtime, size) == Some(c@),
                None => cached_text(self@, path@, mtime, size) is None,
            },
            match r {
                Some(c) => self@.processed.contains_key(path@) && self@.processed[path@].mtime
                    == mtime && self@.processed[path@].size == size && c@
                    == self@.processed[path@].content@,
                None => !(self@.processed.contains_key(path@) && self@.processed[path@].mtime
                    == mtime && self@.processed[path@].size == size),
            },
    {
        match self.processed.get(path) {
            Some(p) => {
                if p.mtime == mtime && p.size == size {
                    Some(p.content.clone())
                } else {
                    None
                }
            },
            None => None,
        }
    }

    /// Queues an image; a newer stat replaces an older one, and an image that
    /// a worker has taken is dropped from `in_flight` so that a stale result
    /// cannot overwrite the new state.
    pub fn enqueue(&mut self, path: String, mtime: i64, size: u64)
        requires
            old(self).wf(),
        ensures
            final(self).wf(),
            final(self)@.pending == old(self)@.pending.insert(path@, Stat { mtime, size }),
            final(self)@.in_flight == old(self)@.in_flight.remove(path@),
            final(self)@.processed == old(self)@.processed,
    {
        let ghost k = path@;
        self.in_flight.remove(path.as_str());
        self.pending.insert(path, Stat { mtime, size });
        proof {
            self.lemma_apart_after(old(self)@, k);
        }
    }

    proof fn lemma_apart_after(&self, before: QueueView, k: Seq<char>)
        requires
            queue_apart(before),
            forall|j: Seq<char>| #[trigger] self@.pending.contains_key(j) ==> j == k || before.pending.contains_key(j),
            forall|j: Seq<char>| #[trigger] self@.in_flight.contains_key(j) ==> j != k && before.in_flight.contains_key(j),
        ensures
            queue_apart(self@),
    {
        assert forall|j: Seq<char>| !(#[trigger] self@.pending.contains_key(j) && self@.in_flight.contains_key(j)) by {
            if self@.pending.contains_key(j) && self@.in_flight.contains_key(j) {
                assert(before.pending.contains_key(j));
                assert(before.in_flight.contains_key(j));
            }
        }
    }

    /// A worker takes one waiting image: it moves to `in_flight`. `None` when
    /// nothing waits.
    pub fn pop_pending(&mut self) -> (r: Option<(String, i64, u64)>)
        requires
            old(self).wf(),
        ensures
            final(self).wf(),
            final(self)@.processed == old(self)@.processed,
            match r {
                Some((k, mtime, size)) => old(self)@.pending.contains_key(k@) && old(
                    self,
                )@.pending[k@] == (Stat { mtime, size }) && final(self)@.pending == old(
                    self,
                )@.pending.remove(k@) && final(self)@.in_flight == old(self)@.in_flight.insert(
                    k@,
                    Stat { mtime, size },
                ),
                None => old(self)@.pending.len() == 0 && final(self)@ == old(self)@,
            },
    {
        match self.pending.pop_first() {
            Some((key, stat)) => {
                let ghost k = key@;
                let out = key.clone();
                self.in_flight.insert(key, stat);
                assert forall|j: Seq<char>| !(#[trigger] self@.pending.contains_key(j) && self@.in_flight.contains_key(j)) by {
                    if self@.pending.contains_key(j) && self@.in_flight.contains_key(j) {
                        assert(old(self)@.pending.contains_key(j));
                        if j != k {
                            assert(old(self)@.in_flight.contains_key(j));
                        }
                    }
                }
                Some((out, stat.mtime, stat.size))
            },
            None => None,
        }
    }

    /// The number of images not done yet, taken ones included.
    pub fn pending_len(&self) -> (n: usize)
        requires
            self.wf(),
        ensures
            n == outstanding(self@),
    {
        let a = self.pending.len();
        let b = self.in_flight.len();
        a.saturating_add(b)
    }

    /// A worker's result is in: the image moves from `in_flight` to
    /// `processed` with its text.
    pub fn mark_processed(&mut self, path: String, mtime: i64, size: u64, content: String)
        requires
            old(self).wf(),
        ensures
            final(self).wf(),
            final(self)@.pending == old(self)@.pending,
            final(self)@.in_flight == old(self)@.in_flight.remove(path@),
            final(self)@.processed == old(self)@.processed.insert(
                path@,
                Processed { mtime, size, content },
            ),
    {
        let ghost k = path@;
        self.in_flight.remove(path.as_str());
        self.processed.insert(path, Processed { mtime, size, content });
        proof {
            self.lemma_apart_after(old(self)@, k);
        }
    }

    /// The result could not be written: the image goes from `in_flight` back
    /// to waiting.
    pub fn requeue(&mut self, path: String, mtime: i64, size: u64)
        requires
            old(self).wf(),
        ensures
            final(self).wf(),
            final(self)@.pending == old(self)@.pending.insert(path@, Stat { mtime, size }),
            final(self)@.in_flight == old(self)@.in_flight.remove(path@),
            final(self)@.processed == old(self)@.processed,
    {
        let ghost k = path@;
        self.in_flight.remove(path.as_str());
        self.pending.insert(path, Stat { mtime, size });
        proof {
            self.lemma_apart_after(old(self)@, k);
        }
    }

    /// The waiting images.
    pub fn pending(&self) -> (m: &StrMap<Stat>)
        requires
            self.wf(),
        ensures
            m.wf(),
            m@ == self@.pending,
    {
        &self.pending
    }

    /// The images a worker has taken.
    pub fn in_flight(&self) -> (m: &StrMap<Stat>)
        requires
            self.wf(),
        ensures
            m.wf(),
            m@ == self@.in_flight,
    {
        &self.in_flight
    }

    /// The recognised images.
    pub fn processed(&self) -> (m: &StrMap<Processed>)
        requires
            self.wf(),
        ensures
            m.wf(),
            m@ == self@.processed,
    {
        &self.processed
    }

    /// Every path the queue knows, in any of its three parts (for checking
    /// which files still exist), and no other.
    pub fn all_paths(&self) -> (ks: Vec<String>)
        requires
            self.wf(),
        ensures
            forall|k: Seq<char>|
                (self@.pending.contains_key(k) || self@.in_flight.contains_key(k)
                    || self@.processed.contains_key(k)) <==> exists|i: int|
                    0 <= i < ks@.len() && #[trigger] ks@[i]@ == k,
    {
        let mut ks = self.pending.keys();
        let mut b = self.in_flight.keys();
        let mut c = self.processed.keys();
        let ghost ka = ks@;
        let ghost kb = b@;
        let ghost kc = c@;
        ks.append(&mut b);
        ks.append(&mut c);
        proof {
            assert(ks@ =~= ka + kb + kc);
            assert forall|k: Seq<char>|
                (self@.pending.contains_key(k) || self@.in_flight.contains_key(k)
                    || self@.processed.contains_key(k)) <==> exists|i: int|
                0 <= i < ks@.len() && #[trigger] ks@[i]@ == k by {
                if self@.pending.contains_key(k) {
                    let i = choose|i: int| 0 <= i < ka.len() && ka[i]@ == k;
                    assert(ks@[i] == ka[i]);
                } else if self@.in_flight.contains_key(k) {
                    let i = choose|i: int| 0 <= i < kb.len() && kb[i]@ == k;
                    assert(ks@[ka.len() + i] == kb[i]);
                } else if self@.processed.contains_key(k) {
                    let i = choose|i: int| 0 <= i < kc.len() && kc[i]@ == k;
                    assert(ks@[ka.len() + kb.len() + i] == kc[i]);
                }
                if exists|i: int| 0 <= i < ks@.len() && #[trigger] ks@[i]@ == k {
                    let i = choose|i: int| 0 <= i < ks@.len() && #[trigger] ks@[i]@ == k;
                    if i < ka.len() {
                        assert(ka[i]@ == k);
                    } else if i < ka.len() + kb.len() {
                        assert(kb[i - ka.len()]@ == k);
                    } else {
                        assert(kc[i - ka.len() - kb.len()]@ == k);
                    }
                }
            }
        }
        ks
    }
}

/// A path to keep when compacting: under one of the roots and not missing on
/// disk.
pub open spec fn keep_path(k: Seq<char>, roots: Seq<Seq<char>>, missing: Seq<Seq<char>>) -> bool {
    (exists|i: int| 0 <= i < roots.len() && path_starts_with(k, #[trigger] roots[i])) && !missing.contains(k)
}

fn keep_path_exec(k: &str, roots: &Vec<String>, missing: &Vec<String>) -> (b: bool)
    ensures
        b == keep_path(k@, strs(roots@), strs(missing@)),
{
    let mut under = false;
    let mut i: usize = 0;
    while i < roots.len()
        invariant
            i <= roots@.len(),
            under == exists|j: int| 0 <= j < i && path_starts_with(k@, #[trigger] strs(roots@)[j]),
        decreases roots.len() - i,
    {
        assert(strs(roots@)[i as int] == roots@[i as int]@);
        if path_is_under(k, roots[i].as_str()) {
            under = true;
        }
        i += 1;
    }
    if !under {
        return false;
    }
    let mut j: usize = 0;
    while j < missing.len()
        invariant
            j <= missing@.len(),
            forall|m: int| 0 <= m < j ==> strs(missing@)[m] != k@,
        decreases missing.len() - j,
    {
        assert(strs(missing@)[j as int] == missing@[j as int]@);
        if str_eq(missing[j].as_str(), k) {
            return false;
        }
        j += 1;
    }
    true
}

/// The map with every key that fails [`keep_path`] dropped.
pub open spec fn kept<V>(m: Map<Seq<char>, V>, roots: Seq<Seq<char>>, missing: Seq<Seq<char>>) -> Map<Seq<char>, V> {
    Map::new(|k: Seq<char>| m.contains_key(k) && keep_path(k, roots, missing), |k: Seq<char>| m[k])
}

/// `k` is among the first `i` keys.
pub open spec fn seen(ks: Seq<String>, i: int, k: Seq<char>) -> bool {
    exists|j: int| 0 <= j < i && #[trigger] ks[j]@ == k
}

proof fn lemma_seen_step(ks: Seq<String>, i: int, k: Seq<char>)
    requires
        0 <= i < ks.len(),
    ensures
        seen(ks, i + 1, k) <==> (seen(ks, i, k) || ks[i]@ == k),
{
    if seen(ks, i + 1, k) {
        let j = choose|j: int| 0 <= j < i + 1 && #[trigger] ks[j]@ == k;
        if j < i {
            assert(seen(ks, i, k));
        }
    }
    if seen(ks, i, k) {
        let j = choose|j: int| 0 <= j < i && #[trigger] ks[j]@ == k;
        assert(0 <= j < i + 1 && ks[j]@ == k);
    }
    if ks[i]@ == k {
        assert(0 <= i < i + 1 && ks[i]@ == k);
    }
}

fn compact_map<V>(m: &mut StrMap<V>, roots: &Vec<String>, missing: &Vec<String>)
    requires
        old(m).wf(),
    ensures
        final(m).wf(),
        final(m)@ == kept(old(m)@, strs(roots@), strs(missing@)),
{
    let ks = m.keys();
    let ghost m0 = m@;
    let ghost r = strs(roots@);
    let ghost x = strs(missing@);
    let mut i: usize = 0;
    while i < ks.len()
        invariant
            m.wf(),
            i <= ks@.len(),
            r == strs(roots@),
            x == strs(missing@),
            forall|k: Seq<char>| #[trigger] m0.contains_key(k) <==> seen(ks@, ks@.len() as int, k),
            forall|k: Seq<char>| #[trigger] m@.contains_key(k) <==> (m0.contains_key(k) && (keep_path(k, r, x) || !seen(ks@, i as int, k))),
            forall|k: Seq<char>| #[trigger] m@.contains_key(k) ==> m@[k] == m0[k],
        decreases ks.len() - i,
    {
        let ghost before = m@;
        let ghost key = ks@[i as int]@;
        let keep = keep_path_exec(ks[i].as_str(), roots, missing);
        if !keep {
            m.remove(ks[i].as_str());
        }
        proof {
            assert forall|k: Seq<char>| #[trigger] m@.contains_key(k) <==> (m0.contains_key(k) && (keep_path(k, r, x) || !seen(ks@, i + 1, k))) by {
                lemma_seen_step(ks@, i as int, k);
                if k != key {
                    assert(m@.contains_key(k) == before.contains_key(k));
                } else {
                    assert(ks@[i as int]@ == k);
                }
            }
            assert forall|k: Seq<char>| #[trigger] m@.contains_key(k) implies m@[k] == m0[k] by {
                assert(before.contains_key(k));
            }
        }
        i += 1;
    }
    proof {
        assert forall|k: Seq<char>| #[trigger] m0.contains_key(k) implies seen(ks@, i as int, k) by {}
        assert(m@ =~= kept(m0, r, x));
    }
}

impl OcrQueue {
    /// Drops every entry (waiting, taken or done) whose path is under none of
    /// the roots, or whose file is gone (`missing`).
    pub fn compact(&mut self, roots: &Vec<String>, missing: &Vec<String>)
        requires
            old(self).wf(),
        ensures
            final(self).wf(),
            final(self)@.pending == kept(old(self)@.pending, strs(roots@), strs(missing@)),
            final(self)@.in_flight == kept(old(self)@.in_flight, strs(roots@), strs(missing@)),
            final(self)@.processed == kept(old(self)@.processed, strs(roots@), strs(missing@)),
    {
        compact_map(&mut self.pending, roots, missing);
        compact_map(&mut self.in_flight, roots, missing);
        compact_map(&mut self.processed, roots, missing);
        assert forall|j: Seq<char>| !(#[trigger] self@.pending.contains_key(j) && self@.in_flight.contains_key(j)) by {
            if self@.pending.contains_key(j) && self@.in_flight.contains_key(j) {
                assert(old(self)@.pending.contains_key(j));
                assert(old(self)@.in_flight.contains_key(j));
            }
        }
    }
}

/// One OCR result of a batch: the image, its stat, the text found.
#[derive(Debug)]
pub struct OcrResult {
    pub path: String,
    pub mtime: i64,
    pub size: u64,
    pub content: String,
}

/// One result settled: written, the image moves from in flight to processed
/// with its stat and text; not written, it moves back to waiting with its
/// stat.
pub open spec fn settle_step(q: QueueView, r: OcrResult, committed: bool) -> QueueView {
    if committed {
        QueueView {
            pending: q.pending,
            in_flight: q.in_flight.remove(r.path@),
            processed: q.processed.insert(
                r.path@,
                Processed { mtime: r.mtime, size: r.size, content: r.content },
            ),
        }
    } else {
        QueueView {
            pending: q.pending.insert(r.path@, Stat { mtime: r.mtime, size: r.size }),
            in_flight: q.in_flight.remove(r.path@),
            processed: q.processed,
        }
    }
}

/// The queue after the first `n` results of a batch are settled, in order.
pub open spec fn settled(q: QueueView, items: Seq<OcrResult>, n: int, committed: bool) -> QueueView
    decreases n,
{
    if n <= 0 {
        q
    } else {
        settle_step(settled(q, items, n - 1, committed), items[n - 1], committed)
    }
}

/// No result from `i + 1` to `n` has the same path as result `i`: result `i`
/// is the last word on its image.
pub open spec fn last_for_path(items: Seq<OcrResult>, i: int, n: int) -> bool {
    forall|j: int| i < j < n ==> #[trigger] items[j].path@ != items[i].path@
}

/// `k` is the path of one of the first `n` results.
pub open spec fn in_batch(items: Seq<OcrResult>, n: int, k: Seq<char>) -> bool {
    exists|j: int| 0 <= j < n && #[trigger] items[j].path@ == k
}

/// What settling a batch does, entry by entry: no result's image is left in
/// flight; each image gets the stat and text (written) or the stat (not
/// written) of its last result; the part of the queue the batch does not
/// write to is as it was; every image outside the batch is as it was.
proof fn lemma_settled(q: QueueView, items: Seq<OcrResult>, n: int, committed: bool)
    requires
        0 <= n <= items.len(),
    ensures
        ({
            let f = settled(q, items, n, committed);
            &&& forall|i: int| 0 <= i < n ==> !f.in_flight.contains_key(#[trigger] items[i].path@)
            &&& committed ==> f.pending == q.pending
            &&& !committed ==> f.processed == q.processed
            &&& committed ==> forall|i: int|
                0 <= i < n && last_for_path(items, i, n) ==> f.processed.contains_key(
                    #[trigger] items[i].path@,
                ) && f.processed[items[i].path@] == (Processed {
                    mtime: items[i].mtime,
                    size: items[i].size,
                    content: items[i].content,
                })
            &&& !committed ==> forall|i: int|
                0 <= i < n && last_for_path(items, i, n) ==> f.pending.contains_key(
                    #[trigger] items[i].path@,
                ) && f.pending[items[i].path@] == (Stat { mtime: items[i].mtime, size: items[i].size })
            &&& forall|k: Seq<char>| !in_batch(items, n, k) ==> {
                &&& (#[trigger] f.pending.contains_key(k)) == q.pending.contains_key(k)
                &&& (f.pending.contains_key(k) ==> f.pending[k] == q.pending[k])
                &&& f.in_flight.contains_key(k) == q.in_flight.contains_key(k)
                &&& (f.in_flight.contains_key(k) ==> f.in_flight[k] == q.in_flight[k])
                &&& f.processed.contains_key(k) == q.processed.contains_key(k)
                &&& (f.processed.contains_key(k) ==> f.processed[k] == q.processed[k])
            }
        }),
    decreases n,
{
    if n > 0 {
        lemma_settled(q, items, n - 1, committed);
        let p = settled(q, items, n - 1, committed);
        let f = settled(q, items, n, committed);
        let r = items[n - 1];
        assert(f == settle_step(p, r, committed));
        assert forall|k: Seq<char>| !in_batch(items, n, k) implies !in_batch(items, n - 1, k)
            && k != r.path@ by {
            if in_batch(items, n - 1, k) {
                let j = choose|j: int| 0 <= j < n - 1 && #[trigger] items[j].path@ == k;
                assert(0 <= j < n && items[j].path@ == k);
            }
            assert(items[n - 1].path@ == r.path@);
        }
        assert forall|i: int| 0 <= i < n - 1 && last_for_path(items, i, n) implies last_for_path(
            items,
            i,
            n - 1,
        ) && items[i].path@ != r.path@ by {
            assert(i < n - 1 < n);
        }
        assert(last_for_path(items, n - 1, n));
    }
}

impl OcrQueue {
    /// Settles a batch of results after writing it to the index: written,
    /// every image becomes processed with its stat and text; not written,
    /// every image goes back to waiting with its stat for the next round.
    /// Either way none of them is left in flight, an image named twice keeps
    /// its last result, and every other image is left as it was.
    pub fn settle_batch(&mut self, items: Vec<OcrResult>, committed: bool)
        requires
            old(self).wf(),
        ensures
            final(self).wf(),
            final(self)@ == settled(old(self)@, items@, items@.len() as int, committed),
            forall|i: int| 0 <= i < items@.len() ==> !final(self)@.in_flight.contains_key(
                #[trigger] items@[i].path@,
            ),
            committed ==> final(self)@.pending == old(self)@.pending,
            !committed ==> final(self)@.processed == old(self)@.processed,
            committed ==> forall|i: int|
                0 <= i < items@.len() && last_for_path(items@, i, items@.len() as int)
                    ==> final(self)@.processed.contains_key(#[trigger] items@[i].path@)
                    && final(self)@.processed[items@[i].path@] == (Processed {
                    mtime: items@[i].mtime,
                    size: items@[i].size,
                    content: items@[i].content,
                }),
            !committed ==> forall|i: int|
                0 <= i < items@.len() && last_for_path(items@, i, items@.len() as int)
                    ==> final(self)@.pending.contains_key(#[trigger] items@[i].path@)
                    && final(self)@.pending[items@[i].path@] == (Stat {
                    mtime: items@[i].mtime,
                    size: items@[i].size,
                }),
            forall|k: Seq<char>| !in_batch(items@, items@.len() as int, k) ==> {
                &&& (#[trigger] final(self)@.pending.contains_key(k)) == old(self)@.pending.contains_key(k)
                &&& (final(self)@.pending.contains_key(k) ==> final(self)@.pending[k] == old(self)@.pending[k])
                &&& final(self)@.in_flight.contains_key(k) == old(self)@.in_flight.contains_key(k)
                &&& (final(self)@.in_flight.contains_key(k) ==> final(self)@.in_flight[k] == old(self)@.in_flight[k])
                &&& final(self)@.processed.contains_key(k) == old(self)@.processed.contains_key(k)
                &&& (final(self)@.processed.contains_key(k) ==> final(self)@.processed[k] == old(self)@.processed[k])
            },
    {
        let ghost its = items@;
        let ghost q0 = self@;
        let mut items = items;
        let n = items.len();
        let mut i: usize = 0;
        while i < n
            invariant
                self.wf(),
                n == its.len(),
                i <= n,
                items@ == its.skip(i as int),
                self@ == settled(q0, its, i as int, committed),
            decreases n - i,
        {
            let ghost before = self@;
            let item = items.remove(0);
            assert(item == its[i as int]);
            if committed {
                self.mark_processed(item.path, item.mtime, item.size, item.content);
            } else {
                self.requeue(item.path, item.mtime, item.size);
            }
            assert(self@ == settle_step(before, its[i as int], committed));
            assert(items@ =~= its.skip(i + 1));
            i += 1;
        }
        proof {
            lemma_settled(q0, its, n as int, committed);
        }
    }
}

/// Taking an image keeps it accounted for: the number of images not done
/// yet does not change, and the image is found in flight.
pub proof fn lemma_pop_keeps_count(before: QueueView, after: QueueView, k: Seq<char>, st: Stat)
    requires
        queue_apart(before),
        before.pending.dom().finite(),
        before.in_flight.dom().finite(),
        before.pending.contains_key(k),
        after.pending == before.pending.remove(k),
        after.in_flight == before.in_flight.insert(k, st),
    ensures
        after.pending.len() + after.in_flight.len() == before.pending.len() + before.in_flight.len(),
        after.in_flight.contains_key(k),
{
    assert(!before.in_flight.contains_key(k));
    assert(after.pending.dom() == before.pending.dom().remove(k));
    assert(after.in_flight.dom() == before.in_flight.dom().insert(k));
}

/// Recovery after a crash loses nothing: every image that was waiting or in
/// flight is waiting afterwards, and nothing is in flight.
pub proof fn lemma_recover_keeps_images(pending: Map<Seq<char>, Stat>, in_flight: Map<Seq<char>, Stat>, k: Seq<char>)
    requires
        pending.contains_key(k) || in_flight.contains_key(k),
    ensures
        pending.union_prefer_right(in_flight).contains_key(k),
{
}

/// What a worker stores for an image is what a later lookup with the same
/// stat reads back; a lookup with another stat (the file changed since)
/// finds nothing, so the image is recognised again.
pub proof fn lemma_marked_text_reads_back(
    before: QueueView,
    after: QueueView,
    path: Seq<char>,
    p: Processed,
    mtime: i64,
    size: u64,
)
    requires
        after.processed == before.processed.insert(path, p),
    ensures
        cached_text(after, path, p.mtime, p.size) == Some(p.content@),
        (mtime != p.mtime || size != p.size) ==> cached_text(after, path, mtime, size) is None,
{
}

} // verus!
