//! The metadata kept beside the index: the schema version, the registered
//! index roots and the USN cursor of each volume. Roots may not nest: a
//! candidate that lies inside a registered root, or that contains one, or
//! that is one, is refused (re-scanning an exact root is allowed where the
//! caller asks for it). Paths are compared component by component after the
//! extended-length prefix is stripped.

use vstd::prelude::*;
use vstd::string::*;
use crate::paths::{
    compare_components, components, display_path, display_text, path_is_under, path_starts_with, paths_equal, same_path,
};
use crate::strmap::StrMap;

verus! {

/// The schema version this program writes and expects; an index with
/// another version has to be rebuilt.
pub const SCHEMA_VERSION: u32 = 6;

/// Where the USN journal of a volume was last read up to.
#[derive(Debug, Clone, Copy, PartialEq, Eq, Structural)]
pub struct UsnCursor {
    pub journal_id: u64,
    pub next_usn: i64,
}

/// The metadata of an index.
pub struct IndexMeta {
    pub schema_version: u32,
    /// The registered roots, in the order they were added.
    pub roots: Vec<String>,
    /// The USN cursor of each volume (by volume key, such as `C:`).
    pub usn_cursors: StrMap<UsnCursor>,
}

/// The mathematical content of an [`IndexMeta`].
pub struct MetaView {
    pub schema_version: u32,
    pub roots: Seq<Seq<char>>,
    pub usn_cursors: Map<Seq<char>, UsnCursor>,
}

pub open spec fn strs(v: Seq<String>) -> Seq<Seq<char>> {
    v.map_values(|s: String| s@)
}

impl View for IndexMeta {
    type V = MetaView;

    open spec fn view(&self) -> MetaView {
        MetaView {
            schema_version: self.schema_version,
            roots: strs(self.roots@),
            usn_cursors: self.usn_cursors@,
        }
    }
}

impl IndexMeta {
    pub open spec fn wf(&self) -> bool {
        self.usn_cursors.wf()
    }

    /// The metadata a full rebuild writes: the current schema, one root, no
    /// cursor.
    pub fn for_rebuild(root: String) -> (m: IndexMeta)
        ensures
            m.wf(),
            m@.schema_version == SCHEMA_VERSION,
            m@.roots == seq![root@],
            m@.usn_cursors == Map::<Seq<char>, UsnCursor>::empty(),
    {
        let ghost r = root@;
        let roots = vec![root];
        assert(strs(roots@) =~= seq![r]);
        IndexMeta { schema_version: SCHEMA_VERSION, roots, usn_cursors: StrMap::new() }
    }
}

/// Why the metadata cannot be used.
#[derive(Debug, Clone, PartialEq, Eq)]
pub enum MetaError {
    /// The index was built with another schema; holds the version found.
    SchemaMismatch(u32),
}

/// Why a root cannot be added or removed; each holds the paths as given.
#[derive(Debug, Clone, PartialEq, Eq)]
pub enum RootError {
    /// The candidate already is a root.
    Duplicate { candidate: String },
    /// The candidate lies inside a registered root.
    InsideRoot { candidate: String, root: String },
    /// The candidate contains a registered root.
    ContainsRoot { candidate: String, root: String },
    /// The path to remove is not a registered root.
    NotRegistered { root: String },
}

/// The kinds of [`RootError`], with the position of the root concerned.
pub enum Nesting {
    Duplicate(int),
    InsideRoot(int),
    ContainsRoot(int),
}

/// The first registered root, from position `i` on, that the candidate
/// clashes with (both compared in display form): the same path (unless
/// `allow_exact`), a root it lies in, or a root it contains.
pub open spec fn nesting_from(roots: Seq<Seq<char>>, cand: Seq<char>, allow_exact: bool, i: int) -> Option<Nesting>
    decreases roots.len() - i,
{
    if i < 0 || i >= roots.len() {
        None
    } else {
        let c = display_text(cand);
        let r = display_text(roots[i]);
        if same_path(r, c) {
            if allow_exact {
                nesting_from(roots, cand, allow_exact, i + 1)
            } else {
                Some(Nesting::Duplicate(i))
            }
        } else if path_starts_with(c, r) {
            Some(Nesting::InsideRoot(i))
        } else if path_starts_with(r, c) {
            Some(Nesting::ContainsRoot(i))
        } else {
            nesting_from(roots, cand, allow_exact, i + 1)
        }
    }
}

/// The error that a clash found by [`nesting_from`] is reported as.
pub open spec fn nesting_error_matches(e: RootError, roots: Seq<Seq<char>>, cand: Seq<char>, n: Nesting) -> bool {
    match (e, n) {
        (RootError::Duplicate { candidate }, Nesting::Duplicate(_)) => candidate@ == cand,
        (RootError::InsideRoot { candidate, root }, Nesting::InsideRoot(i)) => candidate@ == cand
            && root@ == roots[i],
        (RootError::ContainsRoot { candidate, root }, Nesting::ContainsRoot(i)) => candidate@
            == cand && root@ == roots[i],
        _ => false,
    }
}

fn check_nesting(existing: &Vec<String>, candidate: &str, allow_exact: bool) -> (r: Result<(), RootError>)
    ensures
        match (r, nesting_from(strs(existing@), candidate@, allow_exact, 0)) {
            (Ok(()), None) => true,
            (Err(e), Some(n)) => nesting_error_matches(e, strs(existing@), candidate@, n),
            _ => false,
        },
{
    let ghost roots = strs(existing@);
    let cand = display_path(candidate);
    let mut i: usize = 0;
    while i < existing.len()
        invariant
            i <= existing@.len(),
            roots == strs(existing@),
            cand@ == display_text(candidate@),
            nesting_from(roots, candidate@, allow_exact, 0) == nesting_from(
                roots,
                candidate@,
                allow_exact,
                i as int,
            ),
        decreases existing.len() - i,
    {
        let root = display_path(existing[i].as_str());
        assert(roots[i as int] == existing@[i as int]@);
        if paths_equal(root.as_str(), cand.as_str()) {
            if !allow_exact {
                return Err(RootError::Duplicate { candidate: String::from_str(candidate) });
            }
        } else if path_is_under(cand.as_str(), root.as_str()) {
            return Err(
                RootError::InsideRoot {
                    candidate: String::from_str(candidate),
                    root: existing[i].clone(),
                },
            );
        } else if path_is_under(root.as_str(), cand.as_str()) {
            return Err(
                RootError::ContainsRoot {
                    candidate: String::from_str(candidate),
                    root: existing[i].clone(),
                },
            );
        }
        i += 1;
    }
    Ok(())
}

/// Refuses a candidate root that is a registered root, lies inside one, or
/// contains one (the first clash in the order of `existing` is reported).
///
/// The paths are compared as text, in display form: callers pass them as
/// resolved on disk (long names in place of 8.3 short names, links
/// followed), so that two spellings of one folder compare equal.
pub fn assert_no_root_nesting(existing: &Vec<String>, candidate: &str) -> (r: Result<(), RootError>)
    ensures
        match (r, nesting_from(strs(existing@), candidate@, false, 0)) {
            (Ok(()), None) => true,
            (Err(e), Some(n)) => nesting_error_matches(e, strs(existing@), candidate@, n),
            _ => false,
        },
{
    check_nesting(existing, candidate, false)
}

/// Like [`assert_no_root_nesting`], but a candidate that is exactly a
/// registered root passes (re-scanning a root is idempotent); roots inside
/// or around it are still refused.
pub fn assert_no_root_nesting_allow_exact(existing: &Vec<String>, candidate: &str) -> (r: Result<(), RootError>)
    ensures
        match (r, nesting_from(strs(existing@), candidate@, true, 0)) {
            (Ok(()), None) => true,
            (Err(e), Some(n)) => nesting_error_matches(e, strs(existing@), candidate@, n),
            _ => false,
        },
{
    check_nesting(existing, candidate, true)
}

/// Some registered root is the candidate (in display form).
pub open spec fn registered_in(roots: Seq<Seq<char>>, cand: Seq<char>) -> bool {
    exists|i: int| 0 <= i < roots.len() && same_path(display_text(roots[i]), display_text(cand))
}

/// Whether the candidate is exactly a registered root.
pub fn is_root_registered(existing: &Vec<String>, candidate: &str) -> (b: bool)
    ensures
        b == registered_in(strs(existing@), candidate@),
{
    let ghost roots = strs(existing@);
    let cand = display_path(candidate);
    let mut i: usize = 0;
    while i < existing.len()
        invariant
            i <= existing@.len(),
            roots == strs(existing@),
            cand@ == display_text(candidate@),
            forall|j: int| 0 <= j < i ==> !same_path(display_text(roots[j]), display_text(candidate@)),
        decreases existing.len() - i,
    {
        let root = display_path(existing[i].as_str());
        assert(roots[i as int] == existing@[i as int]@);
        if paths_equal(root.as_str(), cand.as_str()) {
            return true;
        }
        i += 1;
    }
    false
}

/// Checks the schema version of metadata read from disk.
pub fn ensure_schema_version(meta: IndexMeta) -> (r: Result<IndexMeta, MetaError>)
    ensures
        match r {
            Ok(m) => meta.schema_version == SCHEMA_VERSION && m@ == meta@ && m.wf() == meta.wf(),
            Err(MetaError::SchemaMismatch(v)) => meta.schema_version != SCHEMA_VERSION && v
                == meta.schema_version,
        },
{
    if meta.schema_version != SCHEMA_VERSION {
        return Err(MetaError::SchemaMismatch(meta.schema_version));
    }
    Ok(meta)
}

/// The registered roots of metadata read from disk, once its schema version
/// is checked.
pub fn registered_roots(meta: IndexMeta) -> (r: Result<Vec<String>, MetaError>)
    ensures
        match r {
            Ok(roots) => meta.schema_version == SCHEMA_VERSION && strs(roots@) == meta@.roots,
            Err(MetaError::SchemaMismatch(v)) => meta.schema_version != SCHEMA_VERSION && v
                == meta.schema_version,
        },
{
    match ensure_schema_version(meta) {
        Ok(m) => Ok(m.roots),
        Err(e) => Err(e),
    }
}

/// Appends a root after the nesting check; on a refusal the metadata is
/// left untouched. Nothing else changes.
pub fn append_root(meta: &mut IndexMeta, root: String) -> (r: Result<(), RootError>)
    ensures
        match (r, nesting_from(old(meta)@.roots, root@, false, 0)) {
            (Ok(()), None) => final(meta)@ == (MetaView {
                roots: old(meta)@.roots.push(root@),
                ..old(meta)@
            }),
            (Err(e), Some(n)) => nesting_error_matches(e, old(meta)@.roots, root@, n)
                && final(meta)@ == old(meta)@,
            _ => false,
        },
        final(meta).wf() == old(meta).wf(),
{
    match assert_no_root_nesting(&meta.roots, root.as_str()) {
        Ok(()) => {
            let ghost r = root@;
            meta.roots.push(root);
            assert(strs(meta.roots@) =~= old(meta)@.roots.push(r));
            Ok(())
        },
        Err(e) => Err(e),
    }
}

/// Removes every registered root that is the same path as `root` (as given,
/// component by component); a path that is no registered root is an error.
/// Nothing else changes.
pub open spec fn roots_without(roots: Seq<Seq<char>>, root: Seq<char>) -> Seq<Seq<char>> {
    roots.filter(|r: Seq<char>| !same_path(r, root))
}

pub fn remove_root_from_meta(meta: &mut IndexMeta, root: &str) -> (r: Result<(), RootError>)
    ensures
        final(meta).wf() == old(meta).wf(),
        match r {
            Ok(()) => roots_without(old(meta)@.roots, root@).len() < old(meta)@.roots.len()
                && final(meta)@ == (MetaView {
                    roots: roots_without(old(meta)@.roots, root@),
                    ..old(meta)@
                }),
            Err(RootError::NotRegistered { root: r }) => r@ == root@
                && roots_without(old(meta)@.roots, root@).len() == old(meta)@.roots.len()
                && final(meta)@ == old(meta)@,
            Err(_) => false,
        },
{
    let ghost all = old(meta)@.roots;
    let mut kept: Vec<String> = Vec::new();
    let mut i: usize = 0;
    let n = meta.roots.len();
    let ghost pred = |r: Seq<char>| !same_path(r, root@);
    while i < n
        invariant
            n == meta.roots@.len(),
            i <= n,
            all == strs(meta.roots@),
            meta@ == old(meta)@,
            meta.wf() == old(meta).wf(),
            pred == (|r: Seq<char>| !same_path(r, root@)),
            strs(kept@) == all.take(i as int).filter(pred),
            kept@.len() <= i,
        decreases n - i,
    {
        proof {
            assert(all[i as int] == meta.roots@[i as int]@);
            assert(all.take(i + 1) =~= all.take(i as int).push(all[i as int]));
            all.take(i as int).lemma_filter_push(all[i as int], pred);
        }
        if !paths_equal(meta.roots[i].as_str(), root) {
            let ghost k = kept@;
            kept.push(meta.roots[i].clone());
            assert(strs(kept@) =~= strs(k).push(meta.roots@[i as int]@));
        }
        i += 1;
    }
    assert(all.take(n as int) =~= all);
    if kept.len() == n {
        return Err(RootError::NotRegistered { root: String::from_str(root) });
    }
    meta.roots = kept;
    Ok(())
}

/// The cursors after the first `n` given ones are filled in: a volume that
/// has no cursor yet takes the one given; a volume that has one keeps it.
pub open spec fn fill_cursors(m: Map<Seq<char>, UsnCursor>, cs: Seq<(String, UsnCursor)>, n: int) -> Map<Seq<char>, UsnCursor>
    decreases n,
{
    if n <= 0 {
        m
    } else {
        let p = fill_cursors(m, cs, n - 1);
        if p.contains_key(cs[n - 1].0@) {
            p
        } else {
            p.insert(cs[n - 1].0@, cs[n - 1].1)
        }
    }
}

/// Entry `i` is the first given for its volume.
pub open spec fn first_for_volume(cs: Seq<(String, UsnCursor)>, i: int) -> bool {
    forall|j: int| 0 <= j < i ==> #[trigger] cs[j].0@ != cs[i].0@
}

/// A volume is among the first `n` given.
pub open spec fn given_volume(cs: Seq<(String, UsnCursor)>, n: int, k: Seq<char>) -> bool {
    exists|j: int| 0 <= j < n && #[trigger] cs[j].0@ == k
}

/// Filling cursors, volume by volume: a cursor already there stays; a
/// volume without one gets the first cursor given for it; no other volume
/// appears.
proof fn lemma_fill_cursors(m: Map<Seq<char>, UsnCursor>, cs: Seq<(String, UsnCursor)>, n: int)
    requires
        0 <= n <= cs.len(),
    ensures
        ({
            let f = fill_cursors(m, cs, n);
            &&& forall|k: Seq<char>| #[trigger] m.contains_key(k) ==> f.contains_key(k) && f[k] == m[k]
            &&& forall|i: int|
                0 <= i < n && !m.contains_key(cs[i].0@) && first_for_volume(cs, i)
                    ==> f.contains_key(#[trigger] cs[i].0@) && f[cs[i].0@] == cs[i].1
            &&& forall|k: Seq<char>| #[trigger] f.contains_key(k) <==> (m.contains_key(k) || given_volume(cs, n, k))
        }),
    decreases n,
{
    if n > 0 {
        lemma_fill_cursors(m, cs, n - 1);
        let p = fill_cursors(m, cs, n - 1);
        let f = fill_cursors(m, cs, n);
        let k0 = cs[n - 1].0@;
        assert forall|i: int|
            0 <= i < n && !m.contains_key(cs[i].0@) && first_for_volume(cs, i)
                implies f.contains_key(#[trigger] cs[i].0@) && f[cs[i].0@] == cs[i].1 by {
            if i < n - 1 {
                assert(cs[i].0@ != k0 || p.contains_key(k0));
            } else {
                assert(!given_volume(cs, n - 1, k0)) by {
                    if given_volume(cs, n - 1, k0) {
                        let j = choose|j: int| 0 <= j < n - 1 && #[trigger] cs[j].0@ == k0;
                        assert(cs[j].0@ != cs[n - 1].0@);
                    }
                }
            }
        }
        assert forall|k: Seq<char>| #[trigger] f.contains_key(k) <==> (m.contains_key(k) || given_volume(cs, n, k)) by {
            if given_volume(cs, n, k) && !given_volume(cs, n - 1, k) {
                let j = choose|j: int| 0 <= j < n && #[trigger] cs[j].0@ == k;
                assert(j == n - 1);
            }
            if given_volume(cs, n - 1, k) {
                let j = choose|j: int| 0 <= j < n - 1 && #[trigger] cs[j].0@ == k;
                assert(0 <= j < n && cs[j].0@ == k);
            }
            if k == k0 {
                assert(cs[n - 1].0@ == k);
            }
        }
    }
}

/// After a root was added by re-scanning it: the root is registered if it
/// was not yet, and every volume without a cursor gets the one given (an
/// older cursor of a volume is kept, so no change is skipped on replay).
pub fn register_root_with_cursors(meta: &mut IndexMeta, root: String, cursors: Vec<(String, UsnCursor)>)
    requires
        old(meta).wf(),
    ensures
        final(meta).wf(),
        final(meta)@.schema_version == old(meta)@.schema_version,
        final(meta)@.roots == if registered_in(old(meta)@.roots, root@) {
            old(meta)@.roots
        } else {
            old(meta)@.roots.push(root@)
        },
        final(meta)@.usn_cursors == fill_cursors(old(meta)@.usn_cursors, cursors@, cursors@.len() as int),
        forall|k: Seq<char>| #[trigger] old(meta)@.usn_cursors.contains_key(k)
            ==> final(meta)@.usn_cursors.contains_key(k)
                && final(meta)@.usn_cursors[k] == old(meta)@.usn_cursors[k],
        forall|i: int|
            0 <= i < cursors@.len() && !old(meta)@.usn_cursors.contains_key(cursors@[i].0@)
                && first_for_volume(cursors@, i) ==> final(meta)@.usn_cursors.contains_key(
                #[trigger] cursors@[i].0@,
            ) && final(meta)@.usn_cursors[cursors@[i].0@] == cursors@[i].1,
        forall|k: Seq<char>| #[trigger] final(meta)@.usn_cursors.contains_key(k)
            <==> (old(meta)@.usn_cursors.contains_key(k) || given_volume(cursors@, cursors@.len() as int, k)),
{
    if !is_root_registered(&meta.roots, root.as_str()) {
        let ghost r = root@;
        meta.roots.push(root);
        assert(strs(meta.roots@) =~= old(meta)@.roots.push(r));
    }
    let mut i: usize = 0;
    while i < cursors.len()
        invariant
            i <= cursors@.len(),
            meta.wf(),
            meta@.schema_version == old(meta)@.schema_version,
            meta@.roots == if registered_in(old(meta)@.roots, root@) {
                old(meta)@.roots
            } else {
                old(meta)@.roots.push(root@)
            },
            meta@.usn_cursors == fill_cursors(old(meta)@.usn_cursors, cursors@, i as int),
        decreases cursors.len() - i,
    {
        let vol = &cursors[i].0;
        if meta.usn_cursors.get(vol.as_str()).is_none() {
            meta.usn_cursors.insert(vol.clone(), cursors[i].1);
        }
        i += 1;
    }
    proof {
        lemma_fill_cursors(old(meta)@.usn_cursors, cursors@, cursors@.len() as int);
    }
}

/// Records the cursor of one volume, replacing an older one; nothing else
/// changes.
pub fn save_usn_cursor(meta: &mut IndexMeta, volume: String, cursor: UsnCursor)
    requires
        old(meta).wf(),
    ensures
        final(meta).wf(),
        final(meta)@ == (MetaView {
            usn_cursors: old(meta)@.usn_cursors.insert(volume@, cursor),
            ..old(meta)@
        }),
{
    meta.usn_cursors.insert(volume, cursor);
}

/// No registered root nests in another (nor repeats one), in display form.
pub open spec fn roots_apart(roots: Seq<Seq<char>>) -> bool {
    forall|i: int, j: int|
        0 <= i < roots.len() && 0 <= j < roots.len() && i != j ==> !path_starts_with(
            display_text(roots[i]),
            display_text(roots[j]),
        )
}

proof fn lemma_nesting_none_apart(roots: Seq<Seq<char>>, cand: Seq<char>, i: int)
    requires
        0 <= i <= roots.len(),
        nesting_from(roots, cand, false, i) is None,
    ensures
        forall|j: int|
            i <= j < roots.len() ==> !path_starts_with(display_text(cand), display_text(roots[j]))
                && !path_starts_with(display_text(roots[j]), display_text(cand)),
    decreases roots.len() - i,
{
    if i < roots.len() {
        let c = display_text(cand);
        let r = display_text(roots[i]);
        if path_starts_with(c, r) && path_starts_with(r, c) {
            assert(compare_components(c).take(compare_components(r).len() as int) =~= compare_components(c));
            assert(same_path(r, c));
        }
        lemma_nesting_none_apart(roots, cand, i + 1);
    }
}

proof fn lemma_filter_keeps_all(s: Seq<Seq<char>>, pred: spec_fn(Seq<char>) -> bool)
    requires
        forall|i: int| 0 <= i < s.len() ==> pred(#[trigger] s[i]),
    ensures
        s.filter(pred) == s,
    decreases s.len(),
{
    if s.len() > 0 {
        lemma_filter_keeps_all(s.drop_last(), pred);
        s.drop_last().lemma_filter_push(s.last(), pred);
        assert(s.drop_last().push(s.last()) =~= s);
    } else {
        reveal(Seq::filter);
    }
}

/// Adding a root keeps the roots apart: whatever [`append_root`] accepts
/// neither lies in, contains, nor repeats a registered root.
pub proof fn lemma_append_keeps_roots_apart(roots: Seq<Seq<char>>, cand: Seq<char>)
    requires
        roots_apart(roots),
        nesting_from(roots, cand, false, 0) is None,
    ensures
        roots_apart(roots.push(cand)),
{
    lemma_nesting_none_apart(roots, cand, 0);
    let r2 = roots.push(cand);
    assert forall|i: int, j: int|
        0 <= i < r2.len() && 0 <= j < r2.len() && i != j implies !path_starts_with(
        display_text(r2[i]),
        display_text(r2[j]),
    ) by {
        if i < roots.len() && j < roots.len() {
            assert(r2[i] == roots[i] && r2[j] == roots[j]);
        }
    }
}


/// Removing a root that was just added gives the roots back as they were:
/// the new root is the same path as none of them.
pub proof fn lemma_append_then_remove(roots: Seq<Seq<char>>, cand: Seq<char>)
    requires
        nesting_from(roots, cand, false, 0) is None,
        display_text(cand) == cand,
        forall|i: int| 0 <= i < roots.len() ==> display_text(#[trigger] roots[i]) == roots[i],
    ensures
        roots_without(roots.push(cand), cand) == roots,
{
    lemma_nesting_none_apart(roots, cand, 0);
    let pred = |r: Seq<char>| !same_path(r, cand);
    assert forall|i: int| 0 <= i < roots.len() implies pred(roots[i]) by {
        if same_path(roots[i], cand) {
            assert(compare_components(cand).take(compare_components(roots[i]).len() as int) =~= compare_components(cand));
        }
    }
    lemma_filter_keeps_all(roots, pred);
    roots.lemma_filter_push(cand, pred);
    assert(!pred(cand));
}

/// The stem of the index state files when the index directory has no usable
/// name.
pub const DEFAULT_INDEX_STEM: &'static str = "dowse-index";
/// The suffix of the metadata file beside the index directory.
pub const META_FILE_SUFFIX: &'static str = "-meta.json";
/// The suffix of the OCR queue file beside the index directory.
pub const QUEUE_FILE_SUFFIX: &'static str = "-ocr-queue.json";

/// The name of a state file kept beside the index directory (not inside it,
/// where the index engine owns every file): the directory's name, or the
/// default stem, followed by the suffix.
pub fn sibling_file_name(dir_name: Option<&str>, suffix: &str) -> (r: String)
    ensures
        r@ == match dir_name {
            Some(n) => n@,
            None => DEFAULT_INDEX_STEM@,
        } + suffix@,
{
    let mut r = match dir_name {
        Some(n) => String::from_str(n),
        None => String::from_str(DEFAULT_INDEX_STEM),
    };
    r.append(suffix);
    r
}

} // verus!
