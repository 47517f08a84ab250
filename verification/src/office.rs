//! Text of Office Open XML documents (docx, xlsx, pptx). Such a document is
//! a zip package; its text sits in XML parts: `word/document.xml` for a
//! docx, the shared strings table and the worksheets for an xlsx, one part
//! per slide for a pptx. Every part is read against a budget of decompressed
//! bytes (the file size limit), so that a small package that inflates to
//! gigabytes is refused instead of exhausting memory; a part that cannot be
//! read, or does not fit, is left out.

use vstd::prelude::*;
use crate::extract::{
    decode_text_smart, decoded_with, entry_read_limit, finish_text, guessed_encoding, is_sheet_entry,
    is_slide_entry, max_bytes, settled_text, sheet_entry, slide_entry, Extractor, IndexRules,
};
use crate::meta::strs;
use crate::text::{chars_of, string_from_chars, trim};
use vstd::relations::{sorted_by, total_ordering};
use crate::xml_text::{event_limit, extract_tagged_text, opt_view, tagged_text, xml_events};

verus! {

#[verifier::external_type_specification]
#[verifier::external_body]
#[verifier::reject_recursive_types(R)]
pub struct ExZipArchive<R>(zip::ZipArchive<R>);

#[verifier::external_type_specification]
#[verifier::external_body]
#[verifier::reject_recursive_types(T)]
pub struct ExCursor<T>(std::io::Cursor<T>);

/// Whether the zip crate reads `pkg` as a zip archive.
pub uninterp spec fn zip_opens(pkg: Seq<u8>) -> bool;

/// The entry names of the zip archive `pkg`, in the archive's order, as the
/// zip crate lists them (names it cannot decode left out).
pub uninterp spec fn zip_entry_names(pkg: Seq<u8>) -> Seq<Seq<char>>;

/// The first `limit` decompressed bytes of the entry `name` of the zip
/// archive `pkg`; nothing when there is no such entry or it cannot be read
/// (a checksum mismatch, a compression method not built in, ...).
pub uninterp spec fn zip_entry_read(pkg: Seq<u8>, name: Seq<char>, limit: u64) -> Option<Seq<u8>>;

/// `zip::ZipArchive::new` over the bytes in memory; an error gives nothing.
#[verifier::external_body]
fn open_zip(bytes: Vec<u8>) -> (r: Option<zip::ZipArchive<std::io::Cursor<Vec<u8>>>>)
    ensures
        r is Some == zip_opens(bytes@),
{
    zip::ZipArchive::new(std::io::Cursor::new(bytes)).ok()
}

/// An opened package, with the bytes it was opened from.
pub struct Package {
    archive: zip::ZipArchive<std::io::Cursor<Vec<u8>>>,
    bytes: Ghost<Seq<u8>>,
}

impl View for Package {
    type V = Seq<u8>;

    closed spec fn view(&self) -> Seq<u8> {
        self.bytes@
    }
}

impl Package {
    /// Opens the bytes as a zip package; nothing when they are not one.
    pub fn open(bytes: Vec<u8>) -> (r: Option<Package>)
        ensures
            r is Some == zip_opens(bytes@),
            r matches Some(p) ==> p@ == bytes@,
    {
        let ghost b = bytes@;
        match open_zip(bytes) {
            Some(archive) => Some(Package { archive, bytes: Ghost(b) }),
            None => None,
        }
    }

    /// `zip::ZipArchive::file_names`, collected in order; names that fail
    /// to decode are left out. The contract names the list.
    #[verifier::external_body]
    pub fn entry_names(&self) -> (v: Vec<String>)
        ensures
            strs(v@) == zip_entry_names(self@),
    {
        self.archive.file_names().filter_map(|n| n.ok()).map(|n| n.into_owned()).collect()
    }

    /// `zip::ZipArchive::by_name`, then at most `limit` bytes of the entry
    /// read with `Read::take` and `read_to_end`; a missing entry or a read
    /// error gives nothing. The contract names the bytes read; that there
    /// are at most `limit` of them is what `Read::take` documents.
    #[verifier::external_body]
    pub fn read_entry(&mut self, name: &str, limit: u64) -> (r: Option<Vec<u8>>)
        ensures
            final(self)@ == old(self)@,
            match r {
                Some(b) => zip_entry_read(old(self)@, name@, limit) == Some(b@) && b@.len() <= limit,
                None => zip_entry_read(old(self)@, name@, limit) is None,
            },
    {
        let mut entry = self.archive.by_name(name).ok()?;
        let mut bytes = Vec::new();
        std::io::Read::read_to_end(&mut std::io::Read::take(&mut entry, limit), &mut bytes).ok()?;
        Some(bytes)
    }
}

/// How many bytes of an entry are read against a budget: one more than the
/// budget, so that an entry over it shows.
pub open spec fn read_limit(budget: usize) -> u64 {
    if budget as int + 1 > u64::MAX {
        u64::MAX
    } else {
        (budget + 1) as u64
    }
}

/// The bytes of the entry `name`, when it can be read and fits the budget.
pub open spec fn entry_within(pkg: Seq<u8>, name: Seq<char>, budget: usize) -> Option<Seq<u8>> {
    match zip_entry_read(pkg, name, read_limit(budget)) {
        Some(b) => if b.len() <= budget {
            Some(b)
        } else {
            None
        },
        None => None,
    }
}

/// Reads the entry `name` within the budget (see [`entry_within`]).
pub fn read_entry_budgeted(p: &mut Package, name: &str, budget: usize) -> (r: Option<Vec<u8>>)
    ensures
        final(p)@ == old(p)@,
        match r {
            Some(b) => entry_within(old(p)@, name@, budget) == Some(b@),
            None => entry_within(old(p)@, name@, budget) is None,
        },
{
    let limit = entry_read_limit(budget);
    match p.read_entry(name, limit) {
        Some(b) => {
            if b.len() <= budget {
                Some(b)
            } else {
                None
            }
        },
        None => None,
    }
}

/// The text of an XML part (see [`tagged_text`]).
pub open spec fn part_text(xml: Seq<u8>, text_tag: Seq<char>, para_tag: Option<Seq<char>>) -> Seq<char> {
    tagged_text(xml_events(xml, event_limit(xml.len())), text_tag, para_tag)
}

/// The trimmed text, or nothing when it is blank.
pub open spec fn finished(s: Seq<char>) -> Option<Seq<char>> {
    if trim(s).len() > 0 {
        Some(trim(s))
    } else {
        None
    }
}

pub open spec fn opt_text(r: Option<String>) -> Option<Seq<char>> {
    match r {
        Some(s) => Some(s@),
        None => None,
    }
}

// ---------------------------------------------------------------------------
// docx
// ---------------------------------------------------------------------------

/// The text of a docx: the text runs (`t`) of `word/document.xml`, a line
/// break after each paragraph (`p`), trimmed; nothing when the package or
/// the part cannot be read or the text is blank.
pub open spec fn docx_text(pkg: Seq<u8>, budget: usize) -> Option<Seq<char>> {
    if !zip_opens(pkg) {
        None
    } else {
        match entry_within(pkg, "word/document.xml"@, budget) {
            Some(xml) => finished(part_text(xml, "t"@, Some("p"@))),
            None => None,
        }
    }
}

/// The text of a docx package (see [`docx_text`]).
pub fn extract_docx(pkg: Vec<u8>, budget: usize) -> (r: Option<String>)
    ensures
        opt_text(r) == docx_text(pkg@, budget),
{
    let ghost bytes = pkg@;
    let mut p = match Package::open(pkg) {
        Some(p) => p,
        None => return None,
    };
    let xml = match read_entry_budgeted(&mut p, "word/document.xml", budget) {
        Some(x) => x,
        None => return None,
    };
    let text = extract_tagged_text(xml.as_slice(), "t", Some("p"));
    proof {
        assert(opt_view(Some("p")) == Some("p"@));
    }
    finish_text(text.as_str())
}

// ---------------------------------------------------------------------------
// xlsx
// ---------------------------------------------------------------------------

/// The text of the parts `names[i..]`, each followed by a line break, while
/// budget is left; a part that cannot be read within what is left is
/// skipped.
pub open spec fn parts_text(pkg: Seq<u8>, names: Seq<Seq<char>>, i: int, remaining: usize, para_tag: Option<Seq<char>>) -> Seq<char>
    decreases names.len() - i,
{
    if i < 0 || i >= names.len() || remaining == 0 {
        Seq::empty()
    } else {
        match entry_within(pkg, names[i], remaining) {
            None => parts_text(pkg, names, i + 1, remaining, para_tag),
            Some(b) => part_text(b, "t"@, para_tag) + seq!['\n'] + parts_text(
                pkg,
                names,
                i + 1,
                (remaining - b.len()) as usize,
                para_tag,
            ),
        }
    }
}

/// The decompressed bytes the parts `names[i..]` use within `remaining`.
pub open spec fn parts_used(pkg: Seq<u8>, names: Seq<Seq<char>>, i: int, remaining: usize) -> int
    decreases names.len() - i,
{
    if i < 0 || i >= names.len() || remaining == 0 {
        0
    } else {
        match entry_within(pkg, names[i], remaining) {
            None => parts_used(pkg, names, i + 1, remaining),
            Some(b) => b.len() + parts_used(pkg, names, i + 1, (remaining - b.len()) as usize),
        }
    }
}

/// However the parts of a package inflate, the text taken from them comes
/// from at most `remaining` decompressed bytes: every part used fits in
/// what is left when it is read.
pub proof fn lemma_parts_within_budget(pkg: Seq<u8>, names: Seq<Seq<char>>, i: int, remaining: usize)
    ensures
        0 <= parts_used(pkg, names, i, remaining) <= remaining,
    decreases names.len() - i,
{
    if i < 0 || i >= names.len() || remaining == 0 {
    } else {
        match entry_within(pkg, names[i], remaining) {
            None => lemma_parts_within_budget(pkg, names, i + 1, remaining),
            Some(b) => lemma_parts_within_budget(pkg, names, i + 1, (remaining - b.len()) as usize),
        }
    }
}

/// The names kept by `keep`, in order.
pub open spec fn names_where(names: Seq<Seq<char>>, keep: spec_fn(Seq<char>) -> bool) -> Seq<Seq<char>>
    decreases names.len(),
{
    if names.len() == 0 {
        Seq::empty()
    } else {
        let rest = names_where(names.drop_last(), keep);
        if keep(names.last()) {
            rest.push(names.last())
        } else {
            rest
        }
    }
}

/// The text of an xlsx: the shared strings table (cell text is mostly kept
/// there, once), then the inline strings of each worksheet in package
/// order, each part followed by a line break, all within the budget;
/// trimmed, nothing when blank or unreadable.
pub open spec fn xlsx_text(pkg: Seq<u8>, budget: usize) -> Option<Seq<char>> {
    if !zip_opens(pkg) {
        None
    } else {
        let shared = if budget > 0 {
            entry_within(pkg, "xl/sharedStrings.xml"@, budget)
        } else {
            None
        };
        let head = match shared {
            Some(b) => part_text(b, "t"@, None) + seq!['\n'],
            None => Seq::empty(),
        };
        let rem: usize = match shared {
            Some(b) => (budget - b.len()) as usize,
            None => budget,
        };
        let sheets = names_where(zip_entry_names(pkg), |n: Seq<char>| is_sheet_entry(n));
        finished(head + parts_text(pkg, sheets, 0, rem, None))
    }
}

fn push_text(out: &mut Vec<char>, s: &str)
    ensures
        final(out)@ == old(out)@ + s@,
{
    let mut v = crate::text::chars_of(s);
    out.append(&mut v);
}

/// The entry names that `sheet_entry` (or `slide_entry`) accepts, in order.
fn select_names(names: &Vec<String>, slides: bool) -> (r: Vec<String>)
    ensures
        strs(r@) == names_where(
            strs(names@),
            if slides {
                |n: Seq<char>| is_slide_entry(n)
            } else {
                |n: Seq<char>| is_sheet_entry(n)
            },
        ),
{
    let ghost keep = if slides {
        |n: Seq<char>| is_slide_entry(n)
    } else {
        |n: Seq<char>| is_sheet_entry(n)
    };
    let mut r: Vec<String> = Vec::new();
    let mut i: usize = 0;
    while i < names.len()
        invariant
            i <= names@.len(),
            keep == (if slides {
                |n: Seq<char>| is_slide_entry(n)
            } else {
                |n: Seq<char>| is_sheet_entry(n)
            }),
            strs(r@) == names_where(strs(names@).take(i as int), keep),
        decreases names.len() - i,
    {
        let ghost before = strs(r@);
        assert(strs(names@).take(i + 1).drop_last() =~= strs(names@).take(i as int));
        assert(strs(names@).take(i + 1).last() == names@[i as int]@);
        let ok = if slides {
            slide_entry(names[i].as_str())
        } else {
            sheet_entry(names[i].as_str())
        };
        if ok {
            r.push(names[i].clone());
            assert(strs(r@) =~= before.push(names@[i as int]@));
        }
        i += 1;
    }
    assert(strs(names@).take(names@.len() as int) =~= strs(names@));
    r
}

/// Appends the text of the parts `names[i..]` within what is left of the
/// budget, and returns what is left.
fn append_parts(
    p: &mut Package,
    names: &Vec<String>,
    budget: usize,
    para_tag: Option<&str>,
    out: &mut Vec<char>,
)
    ensures
        final(p)@ == old(p)@,
        final(out)@ == old(out)@ + parts_text(old(p)@, strs(names@), 0, budget, opt_view(para_tag)),
{
    let ghost pkg = p@;
    let ghost ns = strs(names@);
    let ghost pt = opt_view(para_tag);
    let mut remaining = budget;
    let mut i: usize = 0;
    while i < names.len() && remaining > 0
        invariant
            p@ == pkg,
            ns == strs(names@),
            pt == opt_view(para_tag),
            i <= names@.len(),
            old(out)@ + parts_text(pkg, ns, 0, budget, pt) == out@ + parts_text(pkg, ns, i as int, remaining, pt),
        decreases names.len() - i,
    {
        assert(ns[i as int] == names@[i as int]@);
        let ghost before = out@;
        match read_entry_budgeted(p, names[i].as_str(), remaining) {
            Some(b) => {
                let t = extract_tagged_text(b.as_slice(), "t", para_tag);
                push_text(out, t.as_str());
                out.push('\n');
                assert(out@ =~= before + (part_text(b@, "t"@, pt) + seq!['\n']));
                remaining = remaining - b.len();
            },
            None => {},
        }
        i += 1;
    }
    assert(out@ =~= out@ + Seq::<char>::empty());
}

/// The text of an xlsx package (see [`xlsx_text`]).
pub fn extract_xlsx(pkg: Vec<u8>, budget: usize) -> (r: Option<String>)
    ensures
        opt_text(r) == xlsx_text(pkg@, budget),
{
    let mut p = match Package::open(pkg) {
        Some(p) => p,
        None => return None,
    };
    let ghost bytes = p@;
    let mut out: Vec<char> = Vec::new();
    let mut remaining = budget;
    let ghost shared = if budget > 0 {
        entry_within(bytes, "xl/sharedStrings.xml"@, budget)
    } else {
        None
    };
    if budget > 0 {
        match read_entry_budgeted(&mut p, "xl/sharedStrings.xml", budget) {
            Some(b) => {
                let t = extract_tagged_text(b.as_slice(), "t", None);
                push_text(&mut out, t.as_str());
                out.push('\n');
                remaining = budget - b.len();
                assert(out@ =~= part_text(b@, "t"@, None) + seq!['\n']);
            },
            None => {},
        }
    }
    let names = p.entry_names();
    let sheets = select_names(&names, false);
    let ghost head = out@;
    append_parts(&mut p, &sheets, remaining, None, &mut out);
    assert(opt_view(None) == None::<Seq<char>>);
    let s = string_from_chars(&out);
    finish_text(s.as_str())
}

/// The shared strings and the worksheets of an xlsx together use at most
/// the budget of decompressed bytes.
pub proof fn lemma_xlsx_within_budget(pkg: Seq<u8>, budget: usize)
    ensures
        ({
            let shared = if budget > 0 {
                entry_within(pkg, "xl/sharedStrings.xml"@, budget)
            } else {
                None
            };
            let used = match shared {
                Some(b) => b.len() as int,
                None => 0,
            };
            let rem: usize = match shared {
                Some(b) => (budget - b.len()) as usize,
                None => budget,
            };
            let sheets = names_where(zip_entry_names(pkg), |n: Seq<char>| is_sheet_entry(n));
            used + parts_used(pkg, sheets, 0, rem) <= budget
        }),
{
    let shared = if budget > 0 {
        entry_within(pkg, "xl/sharedStrings.xml"@, budget)
    } else {
        None
    };
    let rem: usize = match shared {
        Some(b) => (budget - b.len()) as usize,
        None => budget,
    };
    let sheets = names_where(zip_entry_names(pkg), |n: Seq<char>| is_sheet_entry(n));
    lemma_parts_within_budget(pkg, sheets, 0, rem);
}

// ---------------------------------------------------------------------------
// pptx
// ---------------------------------------------------------------------------

/// `a` sorts before `b`, or they are equal, as `String`s compare:
/// character by character (which for UTF-8 is byte order), a proper prefix
/// first.
pub open spec fn str_le(a: Seq<char>, b: Seq<char>) -> bool
    decreases a.len(),
{
    if a.len() == 0 {
        true
    } else if b.len() == 0 {
        false
    } else if a[0] != b[0] {
        (a[0] as int) < (b[0] as int)
    } else {
        str_le(a.drop_first(), b.drop_first())
    }
}

pub open spec fn name_order() -> spec_fn(Seq<char>, Seq<char>) -> bool {
    |a: Seq<char>, b: Seq<char>| str_le(a, b)
}

proof fn lemma_str_le_reflexive(a: Seq<char>)
    ensures
        str_le(a, a),
    decreases a.len(),
{
    if a.len() > 0 {
        lemma_str_le_reflexive(a.drop_first());
    }
}

proof fn lemma_str_le_antisymmetric(a: Seq<char>, b: Seq<char>)
    requires
        str_le(a, b),
        str_le(b, a),
    ensures
        a == b,
    decreases a.len(),
{
    if a.len() > 0 && b.len() > 0 {
        lemma_str_le_antisymmetric(a.drop_first(), b.drop_first());
        assert(a =~= seq![a[0]] + a.drop_first());
        assert(b =~= seq![b[0]] + b.drop_first());
    } else {
        assert(a =~= b);
    }
}

proof fn lemma_str_le_transitive(a: Seq<char>, b: Seq<char>, c: Seq<char>)
    requires
        str_le(a, b),
        str_le(b, c),
    ensures
        str_le(a, c),
    decreases a.len(),
{
    if a.len() > 0 && b.len() > 0 && c.len() > 0 && a[0] == b[0] && b[0] == c[0] {
        lemma_str_le_transitive(a.drop_first(), b.drop_first(), c.drop_first());
    }
}

proof fn lemma_str_le_total(a: Seq<char>, b: Seq<char>)
    ensures
        str_le(a, b) || str_le(b, a),
    decreases a.len(),
{
    if a.len() > 0 && b.len() > 0 && a[0] == b[0] {
        lemma_str_le_total(a.drop_first(), b.drop_first());
    }
}

/// String order is a total order.
pub proof fn lemma_name_order_total()
    ensures
        total_ordering(name_order()),
{
    let le = name_order();
    assert forall|x: Seq<char>| #[trigger] le(x, x) by {
        lemma_str_le_reflexive(x);
    }
    assert forall|x: Seq<char>, y: Seq<char>| #[trigger] le(x, y) && #[trigger] le(y, x) implies x == y by {
        lemma_str_le_antisymmetric(x, y);
    }
    assert forall|x: Seq<char>, y: Seq<char>, z: Seq<char>| #[trigger] le(x, y) && #[trigger] le(y, z) implies le(x, z) by {
        lemma_str_le_transitive(x, y, z);
    }
    assert forall|x: Seq<char>, y: Seq<char>| #[trigger] le(x, y) || #[trigger] le(y, x) by {
        lemma_str_le_total(x, y);
    }
}

fn chars_le(a: &Vec<char>, b: &Vec<char>) -> (r: bool)
    ensures
        r == str_le(a@, b@),
{
    let mut i: usize = 0;
    assert(a@.skip(0) =~= a@);
    assert(b@.skip(0) =~= b@);
    while i < a.len() && i < b.len() && a[i] == b[i]
        invariant
            i <= a@.len(),
            i <= b@.len(),
            str_le(a@, b@) == str_le(a@.skip(i as int), b@.skip(i as int)),
        decreases a.len() - i,
    {
        assert(a@.skip(i as int).drop_first() =~= a@.skip(i + 1));
        assert(b@.skip(i as int).drop_first() =~= b@.skip(i + 1));
        i += 1;
    }
    if i == a.len() {
        true
    } else if i == b.len() {
        false
    } else {
        a[i] < b[i]
    }
}

/// The names in string order.
pub fn sort_names(v: &Vec<String>) -> (r: Vec<String>)
    ensures
        strs(r@) == strs(v@).sort_by(name_order()),
{
    let ghost le = name_order();
    proof {
        lemma_name_order_total();
    }
    let mut out: Vec<String> = Vec::new();
    let mut i: usize = 0;
    assert(strs(out@) =~= strs(v@).take(0));
    while i < v.len()
        invariant
            i <= v@.len(),
            le == name_order(),
            total_ordering(le),
            sorted_by(strs(out@), le),
            strs(out@).to_multiset() == strs(v@).take(i as int).to_multiset(),
        decreases v.len() - i,
    {
        let x = v[i].clone();
        let xc = chars_of(x.as_str());
        let mut k: usize = 0;
        while k < out.len() && chars_le(&chars_of(out[k].as_str()), &xc)
            invariant
                k <= out@.len(),
                xc@ == x@,
                forall|j: int| 0 <= j < k ==> str_le(#[trigger] strs(out@)[j], x@),
            decreases out.len() - k,
        {
            k += 1;
        }
        let ghost before = strs(out@);
        proof {
            if k < out@.len() {
                assert(!str_le(before[k as int], x@));
                lemma_str_le_total(before[k as int], x@);
            }
        }
        out.insert(k, x);
        proof {
            let after = strs(out@);
            assert(after =~= before.insert(k as int, x@));
            assert forall|a: int, b: int| 0 <= a < b < after.len() implies #[trigger] le(after[a], after[b]) by {
                if b < k {
                    assert(after[a] == before[a] && after[b] == before[b]);
                } else if b == k {
                    assert(after[a] == before[a]);
                } else if a == k {
                    assert(after[b] == before[b - 1]);
                    assert(le(before[k as int], before[b - 1]) || k == b - 1);
                    if k < b - 1 {
                        lemma_str_le_transitive(x@, before[k as int], before[b - 1]);
                    }
                } else if a < k {
                    assert(after[a] == before[a] && after[b] == before[b - 1]);
                    assert(le(before[a], before[b - 1]));
                } else {
                    assert(after[a] == before[a - 1] && after[b] == before[b - 1]);
                    assert(le(before[a - 1], before[b - 1]));
                }
            }
            vstd::seq_lib::to_multiset_insert(before, k as int, x@);
            assert(strs(v@).take(i + 1) =~= strs(v@).take(i as int).push(x@));
            vstd::seq_lib::to_multiset_build(strs(v@).take(i as int), x@);
        }
        i += 1;
    }
    proof {
        assert(strs(v@).take(v@.len() as int) =~= strs(v@));
        strs(v@).lemma_sort_by_ensures(le);
        vstd::seq_lib::lemma_sorted_unique(strs(out@), strs(v@).sort_by(le), le);
    }
    out
}

/// The text of a pptx: the text runs of each slide part, slides in string
/// order of their part names, a line break after each paragraph and after
/// each slide, all within the budget; trimmed, nothing when blank or
/// unreadable.
pub open spec fn pptx_text(pkg: Seq<u8>, budget: usize) -> Option<Seq<char>> {
    if !zip_opens(pkg) {
        None
    } else {
        let slides = names_where(zip_entry_names(pkg), |n: Seq<char>| is_slide_entry(n)).sort_by(
            name_order(),
        );
        finished(parts_text(pkg, slides, 0, budget, Some("p"@)))
    }
}

/// The text of a pptx package (see [`pptx_text`]).
pub fn extract_pptx(pkg: Vec<u8>, budget: usize) -> (r: Option<String>)
    ensures
        opt_text(r) == pptx_text(pkg@, budget),
{
    let mut p = match Package::open(pkg) {
        Some(p) => p,
        None => return None,
    };
    let names = p.entry_names();
    let slides = select_names(&names, true);
    let sorted = sort_names(&slides);
    let mut out: Vec<char> = Vec::new();
    append_parts(&mut p, &sorted, budget, Some("p"), &mut out);
    assert(opt_view(Some("p")) == Some("p"@));
    assert(out@ =~= Seq::<char>::empty() + out@);
    let s = string_from_chars(&out);
    finish_text(s.as_str())
}

// ---------------------------------------------------------------------------
// Dispatch
// ---------------------------------------------------------------------------

/// The decompression budget of a package: the rules' size limit of one
/// file (a package within the limit may not inflate past it either).
pub open spec fn budget_of(max_file_mb: u64) -> usize {
    if max_bytes(max_file_mb) > usize::MAX {
        usize::MAX
    } else {
        max_bytes(max_file_mb) as usize
    }
}

/// The decompression budget under the rules (see [`budget_of`]).
pub fn decompress_budget(rules: &IndexRules) -> (n: usize)
    ensures
        n == budget_of(rules.max_file_mb),
{
    let b = rules.max_file_bytes();
    if b as u128 > usize::MAX as u128 {
        usize::MAX
    } else {
        b as usize
    }
}

/// The text of a plain text file: nothing when empty, else decoded in the
/// guessed encoding (see [`settled_text`]).
pub open spec fn plain_text(bytes: Seq<u8>) -> Option<Seq<char>> {
    if bytes.len() == 0 {
        None
    } else {
        Some(settled_text(guessed_encoding(bytes), decoded_with(guessed_encoding(bytes), bytes), bytes))
    }
}

/// The text of a file's content by its extractor; PDF is read elsewhere.
pub open spec fn document_text(kind: Extractor, bytes: Seq<u8>, budget: usize) -> Option<Seq<char>> {
    match kind {
        Extractor::Docx => docx_text(bytes, budget),
        Extractor::Xlsx => xlsx_text(bytes, budget),
        Extractor::Pptx => pptx_text(bytes, budget),
        Extractor::PlainText => plain_text(bytes),
        Extractor::Pdf => None,
    }
}

/// The text of a file's content, by its extractor (see [`document_text`]).
/// A PDF is not read here: its reader is guarded against panics where the
/// file is read.
pub fn extract_document(kind: Extractor, bytes: Vec<u8>, budget: usize) -> (r: Option<String>)
    requires
        kind != Extractor::Pdf,
    ensures
        opt_text(r) == document_text(kind, bytes@, budget),
{
    match kind {
        Extractor::Docx => extract_docx(bytes, budget),
        Extractor::Xlsx => extract_xlsx(bytes, budget),
        Extractor::Pptx => extract_pptx(bytes, budget),
        Extractor::PlainText => decode_text_smart(bytes.as_slice()),
        Extractor::Pdf => None,
    }
}

} // verus!
