//! A small map keyed by strings, kept as a vector of entries with distinct
//! keys, in insertion order. Its mathematical content is a `Map` from the
//! keys' characters to the values.

use vstd::prelude::*;
use crate::text::str_eq;

verus! {

/// The keys' characters of a sequence of entries.
pub open spec fn key_at<V>(s: Seq<(String, V)>, i: int) -> Seq<char> {
    s[i].0@
}

/// No two entries share a key.
pub open spec fn distinct_keys<V>(s: Seq<(String, V)>) -> bool {
    forall|i: int, j: int| 0 <= i < j < s.len() ==> key_at(s, i) != key_at(s, j)
}

/// The map that a sequence of entries stands for (later entries win, which
/// never matters when the keys are distinct).
pub open spec fn map_of<V>(s: Seq<(String, V)>) -> Map<Seq<char>, V>
    decreases s.len(),
{
    if s.len() == 0 {
        Map::empty()
    } else {
        map_of(s.drop_last()).insert(s.last().0@, s.last().1)
    }
}

proof fn lemma_distinct_drop_last<V>(s: Seq<(String, V)>)
    requires
        distinct_keys(s),
        s.len() > 0,
    ensures
        distinct_keys(s.drop_last()),
        forall|i: int| 0 <= i < s.len() - 1 ==> key_at(s.drop_last(), i) != s.last().0@,
{
    assert forall|i: int, j: int| 0 <= i < j < s.drop_last().len() implies key_at(
        s.drop_last(),
        i,
    ) != key_at(s.drop_last(), j) by {
        assert(key_at(s, i) != key_at(s, j));
    }
    assert forall|i: int| 0 <= i < s.len() - 1 implies key_at(s.drop_last(), i) != s.last().0@ by {
        assert(key_at(s, i) != key_at(s, s.len() - 1));
    }
}

/// A key is in the map exactly when some entry has it, and then the map
/// holds that entry's value.
proof fn lemma_map_of_lookup<V>(s: Seq<(String, V)>, k: Seq<char>)
    requires
        distinct_keys(s),
    ensures
        map_of(s).contains_key(k) <==> exists|i: int| 0 <= i < s.len() && key_at(s, i) == k,
        forall|i: int| 0 <= i < s.len() && key_at(s, i) == k ==> map_of(s)[k] == s[i].1,
    decreases s.len(),
{
    if s.len() > 0 {
        lemma_distinct_drop_last(s);
        lemma_map_of_lookup(s.drop_last(), k);
        let n = s.len() - 1;
        if k == s.last().0@ {
            assert(key_at(s, n) == k);
        } else {
            assert forall|i: int| 0 <= i < s.len() && key_at(s, i) == k implies i < n && key_at(
                s.drop_last(),
                i,
            ) == k by {}
            if exists|i: int| 0 <= i < s.len() && key_at(s, i) == k {
                let i = choose|i: int| 0 <= i < s.len() && key_at(s, i) == k;
                assert(key_at(s.drop_last(), i) == k);
            }
            if exists|i: int| 0 <= i < s.drop_last().len() && key_at(s.drop_last(), i) == k {
                let i = choose|i: int| 0 <= i < s.drop_last().len() && key_at(s.drop_last(), i) == k;
                assert(key_at(s, i) == k);
            }
        }
    }
}

proof fn lemma_map_of_len<V>(s: Seq<(String, V)>)
    requires
        distinct_keys(s),
    ensures
        map_of(s).len() == s.len(),
        map_of(s).dom().finite(),
    decreases s.len(),
{
    if s.len() > 0 {
        lemma_distinct_drop_last(s);
        lemma_map_of_len(s.drop_last());
        lemma_map_of_lookup(s.drop_last(), s.last().0@);
        assert(!map_of(s.drop_last()).contains_key(s.last().0@));
    }
}

/// Removing the entry at `i` removes its key from the map.
proof fn lemma_map_of_remove<V>(s: Seq<(String, V)>, i: int)
    requires
        distinct_keys(s),
        0 <= i < s.len(),
    ensures
        distinct_keys(s.remove(i)),
        map_of(s.remove(i)) == map_of(s).remove(key_at(s, i)),
    decreases s.len(),
{
    let k = key_at(s, i);
    assert(distinct_keys(s.remove(i))) by {
        assert forall|a: int, b: int| 0 <= a < b < s.remove(i).len() implies key_at(
            s.remove(i),
            a,
        ) != key_at(s.remove(i), b) by {
            let a2 = if a < i {
                a
            } else {
                a + 1
            };
            let b2 = if b < i {
                b
            } else {
                b + 1
            };
            assert(key_at(s.remove(i), a) == key_at(s, a2));
            assert(key_at(s.remove(i), b) == key_at(s, b2));
        }
    }
    lemma_distinct_drop_last(s);
    if i == s.len() - 1 {
        assert(s.remove(i) =~= s.drop_last());
        lemma_map_of_lookup(s.drop_last(), k);
        assert(map_of(s.remove(i)) =~= map_of(s).remove(k));
    } else {
        let t = s.drop_last();
        assert(s.remove(i) =~= t.remove(i).push(s.last()));
        lemma_map_of_remove(t, i);
        assert(key_at(t, i) == k);
        assert(k != s.last().0@) by {
            assert(key_at(s, i) != key_at(s, s.len() - 1));
        }
        assert(s.remove(i).drop_last() =~= t.remove(i));
        assert(map_of(s.remove(i)) =~= map_of(s).remove(k));
    }
}

/// The string-keyed map.
pub struct StrMap<V> {
    entries: Vec<(String, V)>,
}

impl<V> View for StrMap<V> {
    type V = Map<Seq<char>, V>;

    closed spec fn view(&self) -> Map<Seq<char>, V> {
        map_of(self.entries@)
    }
}

impl<V> StrMap<V> {
    /// Distinct keys: the map has as many keys as there are entries.
    pub closed spec fn wf(&self) -> bool {
        distinct_keys(self.entries@)
    }

    pub fn new() -> (m: StrMap<V>)
        ensures
            m.wf(),
            m@ == Map::<Seq<char>, V>::empty(),
    {
        StrMap { entries: Vec::new() }
    }

    /// The number of keys.
    pub fn len(&self) -> (n: usize)
        requires
            self.wf(),
        ensures
            n == self@.len(),
            self@.dom().finite(),
    {
        proof {
            lemma_map_of_len(self.entries@);
        }
        self.entries.len()
    }

    fn find(&self, key: &str) -> (r: Option<usize>)
        requires
            self.wf(),
        ensures
            match r {
                Some(i) => i < self.entries@.len() && key_at(self.entries@, i as int) == key@,
                None => !self@.contains_key(key@),
            },
    {
        let mut i: usize = 0;
        while i < self.entries.len()
            invariant
                i <= self.entries@.len(),
                forall|j: int| 0 <= j < i ==> key_at(self.entries@, j) != key@,
            decreases self.entries.len() - i,
        {
            if str_eq(self.entries[i].0.as_str(), key) {
                return Some(i);
            }
            i += 1;
        }
        proof {
            lemma_map_of_lookup(self.entries@, key@);
        }
        None
    }

    /// The value under `key`, if any.
    pub fn get(&self, key: &str) -> (r: Option<&V>)
        requires
            self.wf(),
        ensures
            match r {
                Some(v) => self@.contains_key(key@) && *v == self@[key@],
                None => !self@.contains_key(key@),
            },
    {
        match self.find(key) {
            Some(i) => {
                proof {
                    lemma_map_of_lookup(self.entries@, key@);
                }
                Some(&self.entries[i].1)
            },
            None => None,
        }
    }

    /// Takes the value under `key` out of the map.
    pub fn remove(&mut self, key: &str) -> (r: Option<V>)
        requires
            old(self).wf(),
        ensures
            final(self).wf(),
            final(self)@ == old(self)@.remove(key@),
            match r {
                Some(v) => old(self)@.contains_key(key@) && v == old(self)@[key@],
                None => !old(self)@.contains_key(key@),
            },
    {
        match self.find(key) {
            Some(i) => {
                proof {
                    lemma_map_of_lookup(self.entries@, key@);
                    lemma_map_of_remove(self.entries@, i as int);
                }
                let (_k, v) = self.entries.remove(i);
                Some(v)
            },
            None => {
                assert(old(self)@.remove(key@) =~= old(self)@);
                None
            },
        }
    }

    /// Puts `value` under `key`, replacing what was there.
    pub fn insert(&mut self, key: String, value: V)
        requires
            old(self).wf(),
        ensures
            final(self).wf(),
            final(self)@ == old(self)@.insert(key@, value),
    {
        self.remove(key.as_str());
        let ghost before = self.entries@;
        proof {
            lemma_map_of_lookup(before, key@);
        }
        self.entries.push((key, value));
        proof {
            assert(self.entries@.drop_last() =~= before);
            assert forall|i: int, j: int| 0 <= i < j < self.entries@.len() implies key_at(
                self.entries@,
                i,
            ) != key_at(self.entries@, j) by {
                if j == self.entries@.len() - 1 {
                    assert(key_at(before, i) == key_at(self.entries@, i));
                } else {
                    assert(key_at(before, i) != key_at(before, j));
                }
            }
            assert(self@ =~= old(self)@.remove(key@).insert(key@, value));
            assert(old(self)@.remove(key@).insert(key@, value) =~= old(self)@.insert(key@, value));
        }
    }

    /// Takes the oldest entry out of the map.
    pub fn pop_first(&mut self) -> (r: Option<(String, V)>)
        requires
            old(self).wf(),
        ensures
            final(self).wf(),
            match r {
                Some((k, v)) => old(self)@.contains_key(k@) && v == old(self)@[k@]
                    && final(self)@ == old(self)@.remove(k@),
                None => old(self)@.len() == 0 && final(self)@ == old(self)@,
            },
    {
        if self.entries.len() == 0 {
            proof {
                lemma_map_of_len(self.entries@);
            }
            return None;
        }
        proof {
            lemma_map_of_lookup(self.entries@, key_at(self.entries@, 0));
            lemma_map_of_remove(self.entries@, 0);
        }
        let e = self.entries.remove(0);
        Some(e)
    }

    /// The keys, oldest first.
    pub fn keys(&self) -> (ks: Vec<String>)
        requires
            self.wf(),
        ensures
            forall|k: Seq<char>| #[trigger] self@.contains_key(k) <==> exists|i: int|
                0 <= i < ks@.len() && ks@[i]@ == k,
    {
        let mut ks: Vec<String> = Vec::new();
        let mut i: usize = 0;
        while i < self.entries.len()
            invariant
                i <= self.entries@.len(),
                ks@.len() == i,
                forall|j: int| 0 <= j < i ==> #[trigger] ks@[j]@ == key_at(self.entries@, j),
            decreases self.entries.len() - i,
        {
            ks.push(self.entries[i].0.clone());
            i += 1;
        }
        proof {
            assert forall|k: Seq<char>| #[trigger] self@.contains_key(k) <==> exists|i: int|
                0 <= i < ks@.len() && ks@[i]@ == k by {
                lemma_map_of_lookup(self.entries@, k);
                if self@.contains_key(k) {
                    let i = choose|i: int| 0 <= i < self.entries@.len() && key_at(self.entries@, i) == k;
                    assert(ks@[i]@ == k);
                }
                if exists|i: int| 0 <= i < ks@.len() && ks@[i]@ == k {
                    let i = choose|i: int| 0 <= i < ks@.len() && ks@[i]@ == k;
                    assert(key_at(self.entries@, i) == k);
                }
            }
        }
        ks
    }

    /// The entries, oldest first (for writing the map out).
    pub fn entries(&self) -> (r: &Vec<(String, V)>)
        requires
            self.wf(),
        ensures
            map_of(r@) == self@,
            distinct_keys(r@),
    {
        &self.entries
    }
}

} // verus!
