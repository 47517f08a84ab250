//! The FRN path table of one NTFS volume: for every file reference number it
//! knows, the parent's FRN, the name and whether it is a directory, plus the
//! FRNs of the watched roots with their full paths. A full path is rebuilt by
//! walking parent links up to a root.

use std::collections::HashMap;
use vstd::prelude::*;
use vstd::string::*;

verus! {

broadcast use vstd::std_specs::hash::group_hash_axioms;

/// The separator put between a parent path and a child name.
pub const PATH_SEP: char = '\\';

/// Characters that already end a path with a separator.
pub open spec fn is_path_sep(c: char) -> bool {
    c == '\\' || c == '/'
}

/// Appending a file name to a path, as `Path::join` does on Windows for a
/// plain name: a separator goes in between unless the path is empty or
/// already ends with one.
pub open spec fn join_spec(base: Seq<char>, name: Seq<char>) -> Seq<char> {
    if base.len() == 0 || is_path_sep(base.last()) {
        base + name
    } else {
        base.push(PATH_SEP) + name
    }
}

/// Joins `name` onto `base` (see [`join_spec`]).
pub fn join_path(base: &str, name: &str) -> (r: String)
    ensures
        r@ == join_spec(base@, name@),
{
    let mut r = String::from_str(base);
    let n = base.unicode_len();
    if n == 0 {
        r.append(name);
        return r;
    }
    let last = base.get_char(n - 1);
    if last == '\\' || last == '/' {
        r.append(name);
    } else {
        let sep = "\\";
        proof {
            reveal_strlit("\\");
        }
        r.append(sep);
        r.append(name);
        assert(r@ =~= base@.push(PATH_SEP) + name@);
    }
    r
}

/// The mathematical content of an [`FrnEntry`].
pub struct EntryView {
    pub parent_frn: u64,
    pub name: Seq<char>,
    pub is_dir: bool,
}

/// What the table knows of one FRN.
#[derive(Debug, Clone, PartialEq, Eq)]
pub struct FrnEntry {
    pub parent_frn: u64,
    pub name: String,
    pub is_dir: bool,
}

impl View for FrnEntry {
    type V = EntryView;

    open spec fn view(&self) -> EntryView {
        EntryView { parent_frn: self.parent_frn, name: self.name@, is_dir: self.is_dir }
    }
}

/// The mathematical content of an [`FrnTable`]: the entries by FRN, and the
/// roots' paths by FRN.
#[verifier::ext_equal]
pub struct TableView {
    pub entries: Map<u64, EntryView>,
    pub roots: Map<u64, Seq<char>>,
}

/// The full path of `frn`, following at most `fuel` parent links: a root
/// gives its own path; an entry gives its parent's path joined with its name;
/// an FRN that is neither, or a walk that runs out of links (a cycle), gives
/// nothing.
pub open spec fn path_of(t: TableView, frn: u64, fuel: nat) -> Option<Seq<char>>
    decreases fuel,
{
    if t.roots.contains_key(frn) {
        Some(t.roots[frn])
    } else if fuel == 0 || !t.entries.contains_key(frn) {
        None
    } else {
        match path_of(t, t.entries[frn].parent_frn, (fuel - 1) as nat) {
            Some(p) => Some(join_spec(p, t.entries[frn].name)),
            None => None,
        }
    }
}

/// The path the table gives for `frn`: a chain without repeats has at most
/// as many links as there are entries.
pub open spec fn resolve(t: TableView, frn: u64) -> Option<Seq<char>> {
    path_of(t, frn, t.entries.len())
}

/// The names collected from a child upwards (`names[0]` is the deepest),
/// joined onto the path `p` of the topmost one's parent.
pub open spec fn join_names(p: Seq<char>, names: Seq<Seq<char>>) -> Seq<char>
    decreases names.len(),
{
    if names.len() == 0 {
        p
    } else {
        join_spec(join_names(p, names.drop_first()), names[0])
    }
}

proof fn lemma_join_names_push(p: Seq<char>, names: Seq<Seq<char>>, x: Seq<char>)
    ensures
        join_names(p, names.push(x)) == join_names(join_spec(p, x), names),
    decreases names.len(),
{
    if names.len() == 0 {
        assert(names.push(x).drop_first() =~= Seq::<Seq<char>>::empty());
        assert(names.push(x)[0] == x);
        assert(join_names(p, Seq::<Seq<char>>::empty()) == p);
    } else {
        assert(names.push(x).drop_first() =~= names.drop_first().push(x));
        assert(names.push(x)[0] == names[0]);
        lemma_join_names_push(p, names.drop_first(), x);
    }
}

/// The FRN path table.
pub struct FrnTable {
    entries: HashMap<u64, FrnEntry>,
    roots: HashMap<u64, String>,
}

impl View for FrnTable {
    type V = TableView;

    closed spec fn view(&self) -> TableView {
        TableView {
            entries: self.entries@.map_values(|e: FrnEntry| e@),
            roots: self.roots@.map_values(|s: String| s@),
        }
    }
}

impl FrnTable {
    /// An empty table: no entry, no root.
    pub fn new() -> (t: FrnTable)
        ensures
            t@.entries == Map::<u64, EntryView>::empty(),
            t@.roots == Map::<u64, Seq<char>>::empty(),
    {
        let t = FrnTable { entries: HashMap::new(), roots: HashMap::new() };
        assert(t@.entries =~= Map::<u64, EntryView>::empty());
        assert(t@.roots =~= Map::<u64, Seq<char>>::empty());
        t
    }

    /// Registers a watched root: `frn` resolves to `path` from now on.
    pub fn register_root(&mut self, frn: u64, path: String)
        ensures
            final(self)@.roots == old(self)@.roots.insert(frn, path@),
            final(self)@.entries == old(self)@.entries,
    {
        let ghost p = path@;
        self.roots.insert(frn, path);
        assert(self@.roots =~= old(self)@.roots.insert(frn, p));
        assert(self@.entries =~= old(self)@.entries);
    }

    /// Records (or replaces) what is known of `frn`.
    pub fn upsert(&mut self, frn: u64, entry: FrnEntry)
        ensures
            final(self)@.entries == old(self)@.entries.insert(frn, entry@),
            final(self)@.roots == old(self)@.roots,
    {
        let ghost e = entry@;
        self.entries.insert(frn, entry);
        assert(self@.entries =~= old(self)@.entries.insert(frn, e));
        assert(self@.roots =~= old(self)@.roots);
    }

    /// Forgets `frn`, handing back what was known of it.
    pub fn remove(&mut self, frn: u64) -> (r: Option<FrnEntry>)
        ensures
            final(self)@.entries == old(self)@.entries.remove(frn),
            final(self)@.roots == old(self)@.roots,
            match r {
                Some(e) => old(self)@.entries.contains_key(frn) && e@ == old(self)@.entries[frn],
                None => !old(self)@.entries.contains_key(frn),
            },
    {
        let r = self.entries.remove(&frn);
        assert(self@.entries =~= old(self)@.entries.remove(frn));
        assert(self@.roots =~= old(self)@.roots);
        r
    }

    /// What is known of `frn`, if anything.
    pub fn get(&self, frn: u64) -> (r: Option<&FrnEntry>)
        ensures
            match r {
                Some(e) => self@.entries.contains_key(frn) && e@ == self@.entries[frn],
                None => !self@.entries.contains_key(frn),
            },
    {
        self.entries.get(&frn)
    }

    /// The number of entries (roots not counted).
    pub fn len(&self) -> (n: usize)
        ensures
            n == self@.entries.len(),
    {
        assert(self@.entries.dom() =~= self.entries@.dom());
        self.entries.len()
    }

    /// The full path of `frn` (see [`resolve`]).
    pub fn reconstruct_path(&self, frn: u64) -> (r: Option<String>)
        ensures
            match (r, resolve(self@, frn)) {
                (Some(s), Some(p)) => s@ == p,
                (None, None) => true,
                _ => false,
            },
    {
        let ghost t = self@;
        let fuel = self.len();
        let ghost full = path_of(t, frn, fuel as nat);
        let mut cur = frn;
        let mut steps: usize = 0;
        let mut names: Vec<String> = Vec::new();
        let ghost mut gnames: Seq<Seq<char>> = Seq::empty();
        loop
            invariant
                t == self@,
                fuel == t.entries.len(),
                full == path_of(t, frn, fuel as nat),
                steps <= fuel,
                gnames.len() == names.len(),
                forall|i: int| 0 <= i < names.len() ==> #[trigger] gnames[i] == names@[i]@,
                full == match path_of(t, cur, (fuel - steps) as nat) {
                    Some(p) => Some(join_names(p, gnames)),
                    None => None,
                },
            decreases fuel - steps,
        {
            if let Some(root) = self.roots.get(&cur) {
                assert(t.roots.contains_key(cur) && t.roots[cur] == root@);
                let mut s = String::from_str(root.as_str());
                let mut i = names.len();
                assert(gnames.subrange(i as int, gnames.len() as int) =~= Seq::<Seq<char>>::empty());
                while i > 0
                    invariant
                        i <= names.len(),
                        gnames.len() == names.len(),
                        forall|k: int| 0 <= k < names.len() ==> #[trigger] gnames[k] == names@[k]@,
                        s@ == join_names(root@, gnames.subrange(i as int, gnames.len() as int)),
                    decreases i,
                {
                    let ghost tail = gnames.subrange(i as int, gnames.len() as int);
                    assert(gnames.subrange(i - 1, gnames.len() as int).drop_first() =~= tail);
                    s = join_path(s.as_str(), names[i - 1].as_str());
                    i -= 1;
                }
                assert(gnames.subrange(0, gnames.len() as int) =~= gnames);
                return Some(s);
            }
            if steps >= fuel {
                return None;
            }
            match self.entries.get(&cur) {
                None => {
                    return None;
                },
                Some(e) => {
                    proof {
                        lemma_join_names_push(
                            path_of(t, e.parent_frn, (fuel - steps - 1) as nat).unwrap_or(
                                Seq::empty(),
                            ),
                            gnames,
                            e.name@,
                        );
                    }
                    names.push(e.name.clone());
                    proof {
                        gnames = gnames.push(e.name@);
                    }
                    cur = e.parent_frn;
                    steps += 1;
                },
            }
        }
    }
}

} // verus!
