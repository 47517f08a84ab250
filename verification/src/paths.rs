//! Windows path text: the display form without the extended-length prefix,
//! and paths as sequences of components (the text between separators), as
//! `Path::starts_with` and path equality compare them.

use vstd::prelude::*;
use crate::frn_table::is_path_sep;
use crate::text::{chars_of, chars_start_with, starts_with, string_from_chars, sub_chars, vec_chars_eq};

verus! {

/// `\\?\`, the extended-length prefix.
pub open spec fn verbatim_prefix() -> Seq<char> {
    seq!['\\', '\\', '?', '\\']
}

/// `\\?\UNC\`, the extended-length prefix of a network path.
pub open spec fn verbatim_unc_prefix() -> Seq<char> {
    seq!['\\', '\\', '?', '\\', 'U', 'N', 'C', '\\']
}

/// The form of a path shown to people: `\\?\UNC\server\share` reads
/// `\\server\share`, `\\?\C:\x` reads `C:\x`, anything else is kept.
pub open spec fn display_text(p: Seq<char>) -> Seq<char> {
    if starts_with(p, verbatim_unc_prefix()) {
        seq!['\\', '\\'] + p.skip(8)
    } else if starts_with(p, verbatim_prefix()) {
        p.skip(4)
    } else {
        p
    }
}

/// Strips the extended-length prefix for display (see [`display_text`]).
pub fn display_path(p: &str) -> (r: String)
    ensures
        r@ == display_text(p@),
{
    let v = chars_of(p);
    let unc = vec!['\\', '\\', '?', '\\', 'U', 'N', 'C', '\\'];
    if chars_start_with(&v, &unc) {
        let rest = sub_chars(&v, 8, v.len());
        let mut out = vec!['\\', '\\'];
        let mut i: usize = 0;
        while i < rest.len()
            invariant
                i <= rest@.len(),
                out@ == seq!['\\', '\\'] + rest@.take(i as int),
            decreases rest.len() - i,
        {
            out.push(rest[i]);
            assert(rest@.take(i + 1) =~= rest@.take(i as int).push(rest@[i as int]));
            i += 1;
        }
        assert(rest@.take(rest@.len() as int) =~= rest@);
        assert(rest@ =~= v@.skip(8));
        return string_from_chars(&out);
    }
    let verbatim = vec!['\\', '\\', '?', '\\'];
    if chars_start_with(&v, &verbatim) {
        let rest = sub_chars(&v, 4, v.len());
        assert(rest@ =~= v@.skip(4));
        return string_from_chars(&rest);
    }
    string_from_chars(&v)
}

/// The state of splitting a path into components after `n` characters:
/// the finished components and the one being read.
pub open spec fn comp_state(s: Seq<char>, n: int) -> (Seq<Seq<char>>, Seq<char>)
    decreases n,
{
    if n <= 0 {
        (Seq::empty(), Seq::empty())
    } else {
        let st = comp_state(s, n - 1);
        if is_path_sep(s[n - 1]) {
            if st.1.len() > 0 {
                (st.0.push(st.1), Seq::empty())
            } else {
                (st.0, Seq::empty())
            }
        } else {
            (st.0, st.1.push(s[n - 1]))
        }
    }
}

/// The components of a path: the non-empty runs of characters between
/// separators (`\` or `/`), in order.
pub open spec fn components(s: Seq<char>) -> Seq<Seq<char>> {
    let st = comp_state(s, s.len() as int);
    if st.1.len() > 0 {
        st.0.push(st.1)
    } else {
        st.0
    }
}

/// A path starts at the root when its first character is a separator.
pub open spec fn rooted(s: Seq<char>) -> bool {
    s.len() > 0 && is_path_sep(s[0])
}

/// The first `n` components with every `.` dropped, but for a leading one
/// of a path that does not start at the root (`Path::components` keeps only
/// that one).
pub open spec fn drop_cur_dirs(cs: Seq<Seq<char>>, n: int, root: bool) -> Seq<Seq<char>>
    decreases n,
{
    if n <= 0 {
        Seq::empty()
    } else {
        let d = drop_cur_dirs(cs, n - 1, root);
        if cs[n - 1] == seq!['.'] && (root || n - 1 > 0) {
            d
        } else {
            d.push(cs[n - 1])
        }
    }
}

/// The components two paths are compared by, as `Path::components` gives
/// them: a path that starts at the root begins with a root component
/// (written `\`), so `\docs` and `docs` differ; `.` components are
/// dropped but for a leading one; separators repeat or trail freely.
pub open spec fn compare_components(s: Seq<char>) -> Seq<Seq<char>> {
    let cs = components(s);
    let rest = drop_cur_dirs(cs, cs.len() as int, rooted(s));
    if rooted(s) {
        seq![seq!['\\']] + rest
    } else {
        rest
    }
}

/// `p` lies at or under `base`: its components begin with those of `base`.
pub open spec fn path_starts_with(p: Seq<char>, base: Seq<char>) -> bool {
    let a = compare_components(p);
    let b = compare_components(base);
    b.len() <= a.len() && a.take(b.len() as int) == b
}

/// `p` and `q` name the same path component by component.
pub open spec fn same_path(p: Seq<char>, q: Seq<char>) -> bool {
    compare_components(p) == compare_components(q)
}

pub open spec fn comps_view(v: Seq<Vec<char>>) -> Seq<Seq<char>> {
    v.map_values(|c: Vec<char>| c@)
}

/// The components of a path (see [`components`]).
pub fn path_components(p: &str) -> (r: Vec<Vec<char>>)
    ensures
        comps_view(r@) == components(p@),
{
    let s = chars_of(p);
    let mut done: Vec<Vec<char>> = Vec::new();
    let mut cur: Vec<char> = Vec::new();
    let mut i: usize = 0;
    while i < s.len()
        invariant
            i <= s@.len(),
            s@ == p@,
            (comps_view(done@), cur@) == comp_state(s@, i as int),
        decreases s.len() - i,
    {
        let c = s[i];
        if c == '\\' || c == '/' {
            if cur.len() > 0 {
                let ghost d = done@;
                let finished = cur;
                done.push(finished);
                cur = Vec::new();
                assert(comps_view(done@) =~= comps_view(d).push(finished@));
            } else {
                cur = Vec::new();
            }
        } else {
            cur.push(c);
        }
        i += 1;
    }
    if cur.len() > 0 {
        let ghost d = done@;
        let finished = cur;
        done.push(finished);
        assert(comps_view(done@) =~= comps_view(d).push(finished@));
    }
    done
}

/// The components a path is compared by (see [`compare_components`]).
fn path_compare_components(p: &str) -> (r: Vec<Vec<char>>)
    ensures
        comps_view(r@) == compare_components(p@),
{
    let cs = path_components(p);
    let s = chars_of(p);
    let root = s.len() > 0 && (s[0] == '\\' || s[0] == '/');
    let mut out: Vec<Vec<char>> = Vec::new();
    if root {
        let mut sep: Vec<char> = Vec::new();
        sep.push('\\');
        assert(sep@ =~= seq!['\\']);
        out.push(sep);
        assert(comps_view(out@) =~= seq![seq!['\\']]);
    } else {
        assert(comps_view(out@) =~= Seq::<Seq<char>>::empty());
    }
    let ghost head: Seq<Seq<char>> = if root { seq![seq!['\\']] } else { Seq::empty() };
    assert(comps_view(out@) =~= head + drop_cur_dirs(comps_view(cs@), 0, root));
    let mut i: usize = 0;
    while i < cs.len()
        invariant
            i <= cs@.len(),
            s@ == p@,
            root == rooted(p@),
            head == (if root { seq![seq!['\\']] } else { Seq::<Seq<char>>::empty() }),
            comps_view(cs@) == components(p@),
            comps_view(out@) == head + drop_cur_dirs(comps_view(cs@), i as int, root),
        decreases cs.len() - i,
    {
        let c = &cs[i];
        let is_cur = c.len() == 1 && c[0] == '.';
        assert(is_cur == (comps_view(cs@)[i as int] == seq!['.'])) by {
            if c@.len() == 1 && c@[0] == '.' {
                assert(c@ =~= seq!['.']);
            }
        }
        if is_cur && (root || i > 0) {
        } else {
            let ghost before = out@;
            out.push(c.clone());
            assert(comps_view(out@) =~= comps_view(before).push(c@));
        }
        i += 1;
    }
    out
}

fn comps_eq_at(a: &Vec<Vec<char>>, b: &Vec<Vec<char>>, n: usize) -> (r: bool)
    requires
        n <= a@.len(),
        n <= b@.len(),
    ensures
        r == (comps_view(a@).take(n as int) == comps_view(b@).take(n as int)),
{
    let mut i: usize = 0;
    while i < n
        invariant
            i <= n,
            n <= a@.len(),
            n <= b@.len(),
            comps_view(a@).take(i as int) == comps_view(b@).take(i as int),
        decreases n - i,
    {
        if !vec_chars_eq(&a[i], &b[i]) {
            assert(comps_view(a@)[i as int] != comps_view(b@)[i as int]);
            assert(comps_view(a@).take(n as int)[i as int] != comps_view(b@).take(n as int)[i as int]);
            return false;
        }
        assert(comps_view(a@).take(i + 1) =~= comps_view(a@).take(i as int).push(
            comps_view(a@)[i as int],
        ));
        assert(comps_view(b@).take(i + 1) =~= comps_view(b@).take(i as int).push(
            comps_view(b@)[i as int],
        ));
        i += 1;
    }
    true
}

/// Whether `p` lies at or under `base` (see [`path_starts_with`]).
pub fn path_is_under(p: &str, base: &str) -> (r: bool)
    ensures
        r == path_starts_with(p@, base@),
{
    let a = path_compare_components(p);
    let b = path_compare_components(base);
    if b.len() > a.len() {
        return false;
    }
    let r = comps_eq_at(&a, &b, b.len());
    assert(comps_view(b@).take(b.len() as int) =~= comps_view(b@));
    r
}

/// Whether `p` and `q` name the same path (see [`same_path`]).
pub fn paths_equal(p: &str, q: &str) -> (r: bool)
    ensures
        r == same_path(p@, q@),
{
    let a = path_compare_components(p);
    let b = path_compare_components(q);
    if a.len() != b.len() {
        assert(comps_view(a@).len() != comps_view(b@).len());
        return false;
    }
    let r = comps_eq_at(&a, &b, b.len());
    assert(comps_view(b@).take(b.len() as int) =~= comps_view(b@));
    assert(comps_view(a@).take(a.len() as int) =~= comps_view(a@));
    r
}

} // verus!
