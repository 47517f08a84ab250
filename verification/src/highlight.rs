//! Highlighting hits in a text fragment. The search engine reports the hits
//! as byte ranges of the UTF-8 text; a range is used when it starts at or
//! after the end of the previous range used, is not empty, and both its ends
//! fall on character boundaries; any other range is skipped.

use vstd::prelude::*;
use crate::text::{chars_of, string_from_chars};

verus! {

/// The number of bytes of a character in UTF-8.
pub open spec fn utf8_len(c: char) -> int {
    let v = c as u32;
    if v < 0x80 {
        1
    } else if v < 0x800 {
        2
    } else if v < 0x10000 {
        3
    } else {
        4
    }
}

/// The byte offset of character `k` (the bytes of the characters before it).
pub open spec fn byte_pos(s: Seq<char>, k: int) -> int
    decreases k,
{
    if k <= 0 {
        0
    } else {
        byte_pos(s, k - 1) + utf8_len(s[k - 1])
    }
}

/// The length of the text in UTF-8 bytes.
pub open spec fn byte_len(s: Seq<char>) -> int {
    byte_pos(s, s.len() as int)
}

/// The character index at byte offset `b`, searching from index `k`: the
/// boundary there, or nothing when `b` falls inside a character or past
/// the end.
pub open spec fn char_at_byte_from(s: Seq<char>, b: int, k: int) -> Option<int>
    decreases s.len() + 1 - k,
{
    if k < 0 || k > s.len() {
        None
    } else if byte_pos(s, k) == b {
        Some(k)
    } else if byte_pos(s, k) > b {
        None
    } else {
        char_at_byte_from(s, b, k + 1)
    }
}

/// The character boundary at byte offset `b`, if `b` is one.
pub open spec fn char_at_byte(s: Seq<char>, b: int) -> Option<int> {
    char_at_byte_from(s, b, 0)
}

/// The usable range `j` from the character cursor `cur`: its boundaries,
/// when it is non-empty and starts at or after `cur`.
pub open spec fn usable_range(s: Seq<char>, r: (usize, usize), cur: int) -> Option<(int, int)> {
    match (char_at_byte(s, r.0 as int), char_at_byte(s, r.1 as int)) {
        (Some(a), Some(b)) => if cur <= a && a < b {
            Some((a, b))
        } else {
            None
        },
        _ => None,
    }
}

/// The text from character `cur` on, with the usable ranges from `j` on
/// wrapped in `open` and `close`.
pub open spec fn wrap_from(
    s: Seq<char>,
    ranges: Seq<(usize, usize)>,
    j: int,
    cur: int,
    open: Seq<char>,
    close: Seq<char>,
) -> Seq<char>
    decreases ranges.len() - j,
{
    if j < 0 || j >= ranges.len() {
        s.subrange(cur, s.len() as int)
    } else {
        match usable_range(s, ranges[j], cur) {
            Some((a, b)) => s.subrange(cur, a) + open + s.subrange(a, b) + close + wrap_from(
                s,
                ranges,
                j + 1,
                b,
                open,
                close,
            ),
            None => wrap_from(s, ranges, j + 1, cur, open, close),
        }
    }
}

/// The text cut into plain and highlighted pieces from character `cur` on
/// (empty plain pieces are left out).
pub open spec fn segments_from(s: Seq<char>, ranges: Seq<(usize, usize)>, j: int, cur: int) -> Seq<(Seq<char>, bool)>
    decreases ranges.len() - j,
{
    let plain = |a: int| if cur < a {
        seq![(s.subrange(cur, a), false)]
    } else {
        Seq::empty()
    };
    if j < 0 || j >= ranges.len() {
        plain(s.len() as int)
    } else {
        match usable_range(s, ranges[j], cur) {
            Some((a, b)) => plain(a) + seq![(s.subrange(a, b), true)] + segments_from(
                s,
                ranges,
                j + 1,
                b,
            ),
            None => segments_from(s, ranges, j + 1, cur),
        }
    }
}

proof fn lemma_char_at_boundary_from(s: Seq<char>, a: int, k: int)
    requires
        0 <= k <= a <= s.len(),
    ensures
        char_at_byte_from(s, byte_pos(s, a), k) == Some(a),
    decreases a - k,
{
    if k < a {
        lemma_byte_pos_mono(s, k, a);
        lemma_char_at_boundary_from(s, a, k + 1);
    }
}

/// The byte offset of a character boundary leads back to that boundary.
pub proof fn lemma_char_at_boundary(s: Seq<char>, a: int)
    requires
        0 <= a <= s.len(),
    ensures
        char_at_byte(s, byte_pos(s, a)) == Some(a),
{
    lemma_char_at_boundary_from(s, a, 0);
}

/// A hit is marked whenever it is not empty, both its ends are character
/// boundaries, and it starts at or after the end of the hit marked before
/// (`cur`): the text up to it is kept, the hit is wrapped, and the rest goes
/// on from its end. The same hit, cut into pieces, is one highlighted piece
/// after the plain text before it.
pub proof fn lemma_hit_after_previous_is_marked(
    s: Seq<char>,
    ranges: Seq<(usize, usize)>,
    j: int,
    cur: int,
    a: int,
    b: int,
    open: Seq<char>,
    close: Seq<char>,
)
    requires
        0 <= j < ranges.len(),
        0 <= cur <= a < b <= s.len(),
        ranges[j].0 == byte_pos(s, a),
        ranges[j].1 == byte_pos(s, b),
    ensures
        wrap_from(s, ranges, j, cur, open, close) == s.subrange(cur, a) + open + s.subrange(a, b)
            + close + wrap_from(s, ranges, j + 1, b, open, close),
        segments_from(s, ranges, j, cur) == (if cur < a {
            seq![(s.subrange(cur, a), false)]
        } else {
            Seq::empty()
        }) + seq![(s.subrange(a, b), true)] + segments_from(s, ranges, j + 1, b),
{
    lemma_char_at_boundary(s, a);
    lemma_char_at_boundary(s, b);
}

/// Two hits where the second starts exactly where the first ends are both
/// marked: `s[..a] open s[a..b] close open s[b..c] close s[c..]`.
pub proof fn lemma_adjacent_hits_both_marked(
    s: Seq<char>,
    ranges: Seq<(usize, usize)>,
    a: int,
    b: int,
    c: int,
    open: Seq<char>,
    close: Seq<char>,
)
    requires
        ranges.len() == 2,
        0 <= a < b < c <= s.len(),
        ranges[0].0 == byte_pos(s, a),
        ranges[0].1 == byte_pos(s, b),
        ranges[1].0 == byte_pos(s, b),
        ranges[1].1 == byte_pos(s, c),
    ensures
        wrap_from(s, ranges, 0, 0, open, close) == s.subrange(0, a) + open + s.subrange(a, b) + close
            + open + s.subrange(b, c) + close + s.subrange(c, s.len() as int),
{
    lemma_hit_after_previous_is_marked(s, ranges, 0, 0, a, b, open, close);
    lemma_hit_after_previous_is_marked(s, ranges, 1, b, b, c, open, close);
    assert(s.subrange(b, b) =~= Seq::<char>::empty());
    assert(wrap_from(s, ranges, 2, c, open, close) == s.subrange(c, s.len() as int));
    assert(s.subrange(0, a) + open + s.subrange(a, b) + close + (s.subrange(b, b) + open + s.subrange(b, c) + close
        + s.subrange(c, s.len() as int)) =~= s.subrange(0, a) + open + s.subrange(a, b) + close
        + open + s.subrange(b, c) + close + s.subrange(c, s.len() as int));
}

fn char_utf8_len(c: char) -> (n: u128)
    ensures
        n == utf8_len(c),
{
    let v = c as u32;
    if v < 0x80 {
        1
    } else if v < 0x800 {
        2
    } else if v < 0x10000 {
        3
    } else {
        4
    }
}

proof fn lemma_byte_pos_mono(s: Seq<char>, i: int, j: int)
    requires
        0 <= i < j <= s.len(),
    ensures
        byte_pos(s, i) < byte_pos(s, j),
    decreases j - i,
{
    if i < j - 1 {
        lemma_byte_pos_mono(s, i, j - 1);
    }
}

/// The byte offsets of every character boundary (`len + 1` of them).
fn byte_offsets(s: &Vec<char>) -> (offs: Vec<u128>)
    ensures
        offs@.len() == s@.len() + 1,
        forall|k: int| 0 <= k <= s@.len() ==> #[trigger] offs@[k] == byte_pos(s@, k),
{
    let mut offs: Vec<u128> = vec![0];
    let mut acc: u128 = 0;
    let mut k: usize = 0;
    while k < s.len()
        invariant
            k <= s@.len(),
            offs@.len() == k + 1,
            acc == byte_pos(s@, k as int),
            acc <= 4 * k,
            forall|m: int| 0 <= m <= k ==> #[trigger] offs@[m] == byte_pos(s@, m),
        decreases s.len() - k,
    {
        acc = acc + char_utf8_len(s[k]);
        k += 1;
        offs.push(acc);
    }
    offs
}

fn char_at(offs: &Vec<u128>, len: usize, b: usize, Ghost(s): Ghost<Seq<char>>) -> (r: Option<usize>)
    requires
        offs@.len() == len + 1,
        len == s.len(),
        forall|k: int| 0 <= k <= len ==> #[trigger] offs@[k] == byte_pos(s, k),
    ensures
        match (r, char_at_byte(s, b as int)) {
            (Some(k), Some(k2)) => k == k2 && k <= len,
            (None, None) => true,
            _ => false,
        },
{
    let n = offs.len();
    assert(len < n);
    let mut k: usize = 0;
    while k <= len
        invariant
            k <= len + 1,
            len < n,
            offs@.len() == len + 1,
            len == s.len(),
            forall|m: int| 0 <= m <= len ==> #[trigger] offs@[m] == byte_pos(s, m),
            char_at_byte(s, b as int) == char_at_byte_from(s, b as int, k as int),
        decreases len + 1 - k,
    {
        if offs[k] == b as u128 {
            return Some(k);
        }
        if offs[k] > b as u128 {
            return None;
        }
        k += 1;
    }
    None
}

fn usable(offs: &Vec<u128>, len: usize, r: (usize, usize), cur: usize, Ghost(s): Ghost<Seq<char>>) -> (u: Option<(usize, usize)>)
    requires
        offs@.len() == len + 1,
        len == s.len(),
        forall|k: int| 0 <= k <= len ==> #[trigger] offs@[k] == byte_pos(s, k),
    ensures
        match (u, usable_range(s, r, cur as int)) {
            (Some((a, b)), Some((a2, b2))) => a == a2 && b == b2 && b <= len,
            (None, None) => true,
            _ => false,
        },
{
    match (char_at(offs, len, r.0, Ghost(s)), char_at(offs, len, r.1, Ghost(s))) {
        (Some(a), Some(b)) => if cur <= a && a < b {
            Some((a, b))
        } else {
            None
        },
        _ => None,
    }
}

fn push_range(out: &mut Vec<char>, s: &Vec<char>, from: usize, to: usize)
    requires
        from <= to <= s@.len(),
    ensures
        final(out)@ == old(out)@ + s@.subrange(from as int, to as int),
{
    let mut i = from;
    while i < to
        invariant
            from <= i <= to,
            to <= s@.len(),
            out@ == old(out)@ + s@.subrange(from as int, i as int),
        decreases to - i,
    {
        out.push(s[i]);
        assert(s@.subrange(from as int, i + 1) =~= s@.subrange(from as int, i as int).push(s@[i as int]));
        i += 1;
    }
    assert(out@ =~= old(out)@ + s@.subrange(from as int, to as int));
}

/// The fragment with every usable range wrapped in `open` and `close`
/// (see [`wrap_from`]).
pub fn wrap_highlight_ranges(fragment: &str, ranges: &Vec<(usize, usize)>, open: &str, close: &str) -> (r: String)
    ensures
        r@ == wrap_from(fragment@, ranges@, 0, 0, open@, close@),
{
    let s = chars_of(fragment);
    let o = chars_of(open);
    let c = chars_of(close);
    let offs = byte_offsets(&s);
    let len = s.len();
    let mut out: Vec<char> = Vec::new();
    let mut cur: usize = 0;
    let mut j: usize = 0;
    while j < ranges.len()
        invariant
            len == s@.len(),
            s@ == fragment@,
            offs@.len() == len + 1,
            forall|k: int| 0 <= k <= len ==> #[trigger] offs@[k] == byte_pos(s@, k),
            j <= ranges@.len(),
            cur <= len,
            wrap_from(s@, ranges@, 0, 0, o@, c@) == out@ + wrap_from(s@, ranges@, j as int, cur as int, o@, c@),
        decreases ranges.len() - j,
    {
        let ghost prev = out@;
        match usable(&offs, len, ranges[j], cur, Ghost(s@)) {
            Some((a, b)) => {
                push_range(&mut out, &s, cur, a);
                push_range(&mut out, &o, 0, o.len());
                push_range(&mut out, &s, a, b);
                push_range(&mut out, &c, 0, c.len());
                assert(o@.subrange(0, o@.len() as int) =~= o@);
                assert(c@.subrange(0, c@.len() as int) =~= c@);
                assert(out@ + wrap_from(s@, ranges@, j + 1, b as int, o@, c@) =~= prev + wrap_from(
                    s@,
                    ranges@,
                    j as int,
                    cur as int,
                    o@,
                    c@,
                ));
                cur = b;
            },
            None => {},
        }
        j += 1;
    }
    push_range(&mut out, &s, cur, len);
    string_from_chars(&out)
}

/// A piece of text, highlighted or not.
#[derive(Debug, Clone, PartialEq, Eq)]
pub struct TextSegment {
    pub text: String,
    pub highlighted: bool,
}

pub open spec fn segments_view(v: Seq<TextSegment>) -> Seq<(Seq<char>, bool)> {
    v.map_values(|t: TextSegment| (t.text@, t.highlighted))
}

fn push_segment(out: &mut Vec<TextSegment>, s: &Vec<char>, from: usize, to: usize, highlighted: bool)
    requires
        from <= to <= s@.len(),
    ensures
        segments_view(final(out)@) == segments_view(old(out)@).push(
            (s@.subrange(from as int, to as int), highlighted),
        ),
{
    let mut piece: Vec<char> = Vec::new();
    push_range(&mut piece, s, from, to);
    let seg = TextSegment { text: string_from_chars(&piece), highlighted };
    let ghost before = out@;
    out.push(seg);
    assert(segments_view(out@) =~= segments_view(before).push(
        (s@.subrange(from as int, to as int), highlighted),
    ));
}

/// The fragment cut into plain and highlighted pieces at the usable ranges
/// (see [`segments_from`]).
pub fn segments_from_ranges(fragment: &str, ranges: &Vec<(usize, usize)>) -> (r: Vec<TextSegment>)
    ensures
        segments_view(r@) == segments_from(fragment@, ranges@, 0, 0),
{
    let s = chars_of(fragment);
    let offs = byte_offsets(&s);
    let len = s.len();
    let mut out: Vec<TextSegment> = Vec::new();
    let mut cur: usize = 0;
    let mut j: usize = 0;
    assert(segments_view(out@) =~= Seq::<(Seq<char>, bool)>::empty());
    while j < ranges.len()
        invariant
            len == s@.len(),
            s@ == fragment@,
            offs@.len() == len + 1,
            forall|k: int| 0 <= k <= len ==> #[trigger] offs@[k] == byte_pos(s@, k),
            j <= ranges@.len(),
            cur <= len,
            segments_from(s@, ranges@, 0, 0) == segments_view(out@) + segments_from(
                s@,
                ranges@,
                j as int,
                cur as int,
            ),
        decreases ranges.len() - j,
    {
        let ghost prev = segments_view(out@);
        match usable(&offs, len, ranges[j], cur, Ghost(s@)) {
            Some((a, b)) => {
                if cur < a {
                    push_segment(&mut out, &s, cur, a, false);
                }
                push_segment(&mut out, &s, a, b, true);
                assert(segments_view(out@) + segments_from(s@, ranges@, j + 1, b as int) =~= prev
                    + segments_from(s@, ranges@, j as int, cur as int));
                cur = b;
            },
            None => {},
        }
        j += 1;
    }
    if cur < len {
        push_segment(&mut out, &s, cur, len, false);
    }
    assert(segments_view(out@) =~= segments_from(s@, ranges@, 0, 0));
    out
}

} // verus!
