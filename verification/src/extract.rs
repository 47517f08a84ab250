//! Which files have text to index and how it is read: the extension decides
//! the extractor (PDF, the Office Open XML formats, or plain text by a fixed
//! list plus the extensions the rules add); plain text is decoded after
//! guessing its encoding, falling back to lossy UTF-8 when a guessed
//! non-UTF-8 encoding meets malformed input.

use vstd::prelude::*;
use vstd::string::*;
use crate::meta::strs;
use crate::paths::components;
use crate::text::{
    ascii_lower, chars_of, starts_with, str_eq, string_from_chars, sub_chars, to_ascii_lower,
    trim, trim_chars, vec_chars_eq,
};

verus! {

// ---------------------------------------------------------------------------
// Rules
// ---------------------------------------------------------------------------

/// The default size limit of one file, in MiB.
pub const DEFAULT_MAX_FILE_MB: u64 = 20;

/// The index rules: directory names left out of the walk, extensions read as
/// plain text besides the built-in ones, and the size limit of one file.
#[derive(Debug, Clone, PartialEq, Eq)]
pub struct IndexRules {
    pub exclude_dirs: Vec<String>,
    pub extra_text_exts: Vec<String>,
    pub max_file_mb: u64,
}

/// The size limit in bytes (saturated at `u64::MAX`).
pub open spec fn max_bytes(mb: u64) -> int {
    if mb * 1024 * 1024 > u64::MAX {
        u64::MAX as int
    } else {
        mb * 1024 * 1024
    }
}

impl IndexRules {
    pub fn max_file_bytes(&self) -> (n: u64)
        ensures
            n == max_bytes(self.max_file_mb),
    {
        if self.max_file_mb > u64::MAX / (1024 * 1024) {
            u64::MAX
        } else {
            self.max_file_mb * (1024 * 1024)
        }
    }

    /// Whether the walk leaves out a directory of this name: one the rules
    /// list.
    pub fn is_dir_excluded(&self, name: &str) -> (b: bool)
        ensures
            b == strs(self.exclude_dirs@).contains(name@),
    {
        let mut i: usize = 0;
        while i < self.exclude_dirs.len()
            invariant
                i <= self.exclude_dirs@.len(),
                forall|j: int| 0 <= j < i ==> strs(self.exclude_dirs@)[j] != name@,
            decreases self.exclude_dirs.len() - i,
        {
            assert(strs(self.exclude_dirs@)[i as int] == self.exclude_dirs@[i as int]@);
            if str_eq(self.exclude_dirs[i].as_str(), name) {
                assert(strs(self.exclude_dirs@)[i as int] == name@);
                return true;
            }
            i += 1;
        }
        false
    }

    /// Whether the rules add `ext` (already lower-cased) as plain text.
    pub fn is_extra_text_ext(&self, ext: &str) -> (b: bool)
        ensures
            b == strs(self.extra_text_exts@).contains(ext@),
    {
        let mut i: usize = 0;
        while i < self.extra_text_exts.len()
            invariant
                i <= self.extra_text_exts@.len(),
                forall|j: int| 0 <= j < i ==> strs(self.extra_text_exts@)[j] != ext@,
            decreases self.extra_text_exts.len() - i,
        {
            assert(strs(self.extra_text_exts@)[i as int] == self.extra_text_exts@[i as int]@);
            if str_eq(self.extra_text_exts[i].as_str(), ext) {
                assert(strs(self.extra_text_exts@)[i as int] == ext@);
                return true;
            }
            i += 1;
        }
        false
    }
}

// ---------------------------------------------------------------------------
// Extensions
// ---------------------------------------------------------------------------

/// The extension of a path, as `Path::extension` gives it: the text after
/// the last dot of the last component, unless that component is `..`, has no
/// dot, or has its only dot first (a dotfile).
pub open spec fn extension_of(p: Seq<char>) -> Option<Seq<char>> {
    let cs = components(p);
    if cs.len() == 0 {
        None
    } else {
        let name = cs.last();
        if name == seq!['.', '.'] {
            None
        } else {
            let i = last_dot(name, name.len() as int);
            if i <= 0 {
                None
            } else {
                Some(name.skip(i + 1))
            }
        }
    }
}

/// The position of the last dot among the first `n` characters, or -1.
pub open spec fn last_dot(s: Seq<char>, n: int) -> int
    decreases n,
{
    if n <= 0 {
        -1
    } else if s[n - 1] == '.' {
        n - 1
    } else {
        last_dot(s, n - 1)
    }
}

/// The extension of a path (see [`extension_of`]).
pub fn file_extension(path: &str) -> (r: Option<Vec<char>>)
    ensures
        match (r, extension_of(path@)) {
            (Some(e), Some(e2)) => e@ == e2,
            (None, None) => true,
            _ => false,
        },
{
    let cs = crate::paths::path_components(path);
    if cs.len() == 0 {
        return None;
    }
    let name = &cs[cs.len() - 1];
    assert(crate::paths::comps_view(cs@).last() == name@);
    if name.len() == 2 && name[0] == '.' && name[1] == '.' {
        assert(name@ =~= seq!['.', '.']);
        return None;
    }
    let mut n = name.len();
    while n > 0
        invariant
            n <= name@.len(),
            last_dot(name@, name@.len() as int) == last_dot(name@, n as int),
        ensures
            n <= name@.len(),
            last_dot(name@, name@.len() as int) == last_dot(name@, n as int),
            n > 0 ==> name@[n - 1] == '.',
        decreases n,
    {
        if name[n - 1] == '.' {
            break;
        }
        n -= 1;
    }
    assert(last_dot(name@, name@.len() as int) == n as int - 1);
    if n <= 1 {
        return None;
    }
    let ext = sub_chars(name, n, name.len());
    assert(ext@ =~= name@.skip(n as int));
    Some(ext)
}

/// The extensions read as plain text.
pub open spec fn text_exts() -> Seq<Seq<char>> {
    seq![
        "txt"@, "md"@, "markdown"@, "log"@, "csv"@, "tsv"@, "json"@, "toml"@, "yaml"@, "yml"@,
        "ini"@, "cfg"@, "conf"@, "xml"@, "html"@, "htm"@, "sql"@, "sh"@, "ps1"@, "bat"@, "rs"@,
        "py"@, "go"@, "java"@, "js"@, "ts"@, "jsx"@, "tsx"@, "c"@, "h"@, "cpp"@, "hpp"@, "cs"@,
        "rb"@, "php"@, "lua"@, "vue"@,
    ]
}

fn text_ext_table() -> (v: Vec<&'static str>)
    ensures
        v@.map_values(|s: &'static str| s@) == text_exts(),
{
    let v = vec![
        "txt", "md", "markdown", "log", "csv", "tsv", "json", "toml", "yaml", "yml", "ini", "cfg",
        "conf", "xml", "html", "htm", "sql", "sh", "ps1", "bat", "rs", "py", "go", "java", "js",
        "ts", "jsx", "tsx", "c", "h", "cpp", "hpp", "cs", "rb", "php", "lua", "vue",
    ];
    assert(v@.map_values(|s: &'static str| s@) =~= text_exts());
    v
}

/// Whether a lower-case extension is one of the built-in plain text ones.
pub fn is_text_ext(ext: &str) -> (b: bool)
    ensures
        b == text_exts().contains(ext@),
{
    let table = text_ext_table();
    let mut i: usize = 0;
    while i < table.len()
        invariant
            i <= table@.len(),
            table@.map_values(|s: &'static str| s@) == text_exts(),
            forall|j: int| 0 <= j < i ==> text_exts()[j] != ext@,
        decreases table.len() - i,
    {
        assert(text_exts()[i as int] == table@[i as int]@);
        if str_eq(table[i], ext) {
            return true;
        }
        i += 1;
    }
    false
}

/// How the text of a file is read.
#[derive(Debug, Clone, Copy, PartialEq, Eq, Structural)]
pub enum Extractor {
    Pdf,
    Docx,
    Xlsx,
    Pptx,
    /// Read as plain text, with the encoding guessed.
    PlainText,
}

/// The extractor of a lower-case extension: PDF and the three Office Open
/// XML formats by name, plain text for the built-in list and the rules'
/// additions; nothing for anything else.
pub open spec fn extractor_of(ext: Seq<char>, extra: Seq<Seq<char>>) -> Option<Extractor> {
    if ext == "pdf"@ {
        Some(Extractor::Pdf)
    } else if ext == "docx"@ {
        Some(Extractor::Docx)
    } else if ext == "xlsx"@ {
        Some(Extractor::Xlsx)
    } else if ext == "pptx"@ {
        Some(Extractor::Pptx)
    } else if text_exts().contains(ext) || extra.contains(ext) {
        Some(Extractor::PlainText)
    } else {
        None
    }
}

/// The extractor for a lower-case extension (see [`extractor_of`]).
pub fn extractor_for(ext: &str, rules: &IndexRules) -> (r: Option<Extractor>)
    ensures
        r == extractor_of(ext@, strs(rules.extra_text_exts@)),
{
    if str_eq(ext, "pdf") {
        Some(Extractor::Pdf)
    } else if str_eq(ext, "docx") {
        Some(Extractor::Docx)
    } else if str_eq(ext, "xlsx") {
        Some(Extractor::Xlsx)
    } else if str_eq(ext, "pptx") {
        Some(Extractor::Pptx)
    } else if is_text_ext(ext) || rules.is_extra_text_ext(ext) {
        Some(Extractor::PlainText)
    } else {
        None
    }
}

/// The extractor for a path: by its extension, lower-cased; a path without
/// an extension has none.
pub open spec fn path_extractor(p: Seq<char>, extra: Seq<Seq<char>>) -> Option<Extractor> {
    match extension_of(p) {
        Some(e) => extractor_of(ascii_lower(e), extra),
        None => None,
    }
}

/// The extractor for a path (see [`path_extractor`]).
pub fn extractor_for_path(path: &str, rules: &IndexRules) -> (r: Option<Extractor>)
    ensures
        r == path_extractor(path@, strs(rules.extra_text_exts@)),
{
    match file_extension(path) {
        Some(e) => {
            let lower = to_ascii_lower(&e);
            let s = string_from_chars(&lower);
            extractor_for(s.as_str(), rules)
        },
        None => None,
    }
}

/// Whether the file's kind has text to extract (by its extension only).
pub fn is_extractable_with(path: &str, rules: &IndexRules) -> (b: bool)
    ensures
        b == (path_extractor(path@, strs(rules.extra_text_exts@)) is Some),
{
    extractor_for_path(path, rules).is_some()
}

/// Whether a file of `len` bytes is over the rules' size limit.
pub fn over_size_limit(len: u64, rules: &IndexRules) -> (b: bool)
    ensures
        b == (len > max_bytes(rules.max_file_mb)),
{
    len > rules.max_file_bytes()
}

/// The extractor a file of `len` bytes is read with, if it is read at all:
/// its kind must have text (by extension) and it must be within the size
/// limit. Text is extracted from a file only when this gives one.
pub fn extraction_plan(path: &str, len: u64, rules: &IndexRules) -> (r: Option<Extractor>)
    ensures
        r == (if len > max_bytes(rules.max_file_mb) {
            None
        } else {
            path_extractor(path@, strs(rules.extra_text_exts@))
        }),
        r is Some ==> (path_extractor(path@, strs(rules.extra_text_exts@)) is Some && len
            <= max_bytes(rules.max_file_mb)),
{
    if over_size_limit(len, rules) {
        None
    } else {
        extractor_for_path(path, rules)
    }
}

// ---------------------------------------------------------------------------
// Office Open XML packages
// ---------------------------------------------------------------------------

/// The most a zip entry may be read to: one byte over the budget, so that an
/// entry over the budget is noticed.
pub fn entry_read_limit(budget: usize) -> (n: u64)
    ensures
        n == (if budget as int + 1 > u64::MAX {
            u64::MAX as int
        } else {
            budget as int + 1
        }),
{
    (budget as u64).saturating_add(1)
}

/// A decompressed entry is used only within the budget (a guard against zip
/// bombs).
pub fn entry_within_budget(read_len: usize, budget: usize) -> (b: bool)
    ensures
        b == (read_len <= budget),
{
    read_len <= budget
}

/// The budget left after reading an entry of `read_len` bytes.
pub fn budget_after(remaining: usize, read_len: usize) -> (n: usize)
    ensures
        n == (if remaining >= read_len {
            remaining - read_len
        } else {
            0
        }),
{
    remaining.saturating_sub(read_len)
}

/// `s` ends with `suffix`.
pub open spec fn ends_with(s: Seq<char>, suffix: Seq<char>) -> bool {
    suffix.len() <= s.len() && s.skip(s.len() - suffix.len()) == suffix
}

fn chars_end_with(v: &Vec<char>, suffix: &Vec<char>) -> (b: bool)
    ensures
        b == ends_with(v@, suffix@),
{
    if suffix.len() > v.len() {
        return false;
    }
    let tail = sub_chars(v, v.len() - suffix.len(), v.len());
    assert(tail@ =~= v@.skip(v@.len() - suffix@.len()));
    vec_chars_eq(&tail, suffix)
}

/// A worksheet part of a workbook package.
pub open spec fn is_sheet_entry(name: Seq<char>) -> bool {
    starts_with(name, "xl/worksheets/sheet"@) && ends_with(name, ".xml"@)
}

/// A slide part of a presentation package.
pub open spec fn is_slide_entry(name: Seq<char>) -> bool {
    starts_with(name, "ppt/slides/slide"@) && ends_with(name, ".xml"@)
}

pub fn sheet_entry(name: &str) -> (b: bool)
    ensures
        b == is_sheet_entry(name@),
{
    let v = chars_of(name);
    crate::text::chars_start_with(&v, &chars_of("xl/worksheets/sheet")) && chars_end_with(
        &v,
        &chars_of(".xml"),
    )
}

pub fn slide_entry(name: &str) -> (b: bool)
    ensures
        b == is_slide_entry(name@),
{
    let v = chars_of(name);
    crate::text::chars_start_with(&v, &chars_of("ppt/slides/slide")) && chars_end_with(
        &v,
        &chars_of(".xml"),
    )
}

/// The text extracted from a document, trimmed; nothing when that is empty.
pub fn finish_text(text: &str) -> (r: Option<String>)
    ensures
        match r {
            Some(t) => trim(text@).len() > 0 && t@ == trim(text@),
            None => trim(text@).len() == 0,
        },
{
    let t = trim_chars(&chars_of(text));
    if t.len() == 0 {
        None
    } else {
        Some(string_from_chars(&t))
    }
}

// ---------------------------------------------------------------------------
// Plain text decoding
// ---------------------------------------------------------------------------

/// The name of the encoding that chardetng guesses for the whole of `bytes`
/// (ISO-2022-JP and UTF-8 allowed as guesses, no top-level domain).
pub uninterp spec fn guessed_encoding(bytes: Seq<u8>) -> Seq<char>;

/// What encoding_rs makes of `bytes` in the encoding with label `label`
/// (with BOM sniffing, malformed sequences replaced): the text and whether
/// anything was malformed; nothing when the label names no encoding.
pub uninterp spec fn decoded_with(label: Seq<char>, bytes: Seq<u8>) -> Option<(Seq<char>, bool)>;

/// `String::from_utf8_lossy`: `bytes` as UTF-8, malformed sequences
/// replaced by U+FFFD.
pub uninterp spec fn utf8_lossy(bytes: Seq<u8>) -> Seq<char>;

/// `chardetng::EncodingDetector`, fed all of `bytes` at once, then
/// `guess(None, Utf8Detection::Allow)`; the result's name. The contract
/// names the result only; it is a function of the bytes.
#[verifier::external_body]
fn guess_encoding_name(bytes: &[u8]) -> (name: &'static str)
    ensures
        name@ == guessed_encoding(bytes@),
{
    let mut detector = chardetng::EncodingDetector::new(chardetng::Iso2022JpDetection::Allow);
    detector.feed(bytes, true);
    detector.guess(None, chardetng::Utf8Detection::Allow).name()
}

/// `encoding_rs::Encoding::for_label`, then `Encoding::decode`: the text
/// and the had-errors flag; the contract names the result only.
#[verifier::external_body]
fn decode_with_label(label: &str, bytes: &[u8]) -> (r: Option<(String, bool)>)
    ensures
        match (r, decoded_with(label@, bytes@)) {
            (Some((t, e)), Some((t2, e2))) => t@ == t2 && e == e2,
            (None, None) => true,
            _ => false,
        },
{
    match encoding_rs::Encoding::for_label(label.as_bytes()) {
        Some(enc) => {
            let (text, _, had_errors) = enc.decode(bytes);
            Some((text.into_owned(), had_errors))
        },
        None => None,
    }
}

/// `String::from_utf8_lossy`, owned.
#[verifier::external_body]
fn utf8_lossy_string(bytes: &[u8]) -> (s: String)
    ensures
        s@ == utf8_lossy(bytes@),
{
    String::from_utf8_lossy(bytes).into_owned()
}

/// The text kept from a decoding: the decoder's text, unless it met
/// malformed input in an encoding other than UTF-8 (a wrong guess), where
/// lossy UTF-8 is used rather than indexing mojibake.
pub open spec fn settled_text(encoding: Seq<char>, decoded: Option<(Seq<char>, bool)>, bytes: Seq<u8>) -> Seq<char> {
    match decoded {
        Some((text, had_errors)) => if had_errors && encoding != "UTF-8"@ {
            utf8_lossy(bytes)
        } else {
            text
        },
        None => utf8_lossy(bytes),
    }
}

/// Chooses the text kept from a decoding (see [`settled_text`]).
pub fn settle_decoding(encoding: &str, decoded: Option<(String, bool)>, bytes: &[u8]) -> (s: String)
    ensures
        s@ == settled_text(
            encoding@,
            match decoded {
                Some((t, e)) => Some((t@, e)),
                None => None,
            },
            bytes@,
        ),
{
    match decoded {
        Some((text, had_errors)) => {
            if had_errors && !str_eq(encoding, "UTF-8") {
                utf8_lossy_string(bytes)
            } else {
                text
            }
        },
        None => utf8_lossy_string(bytes),
    }
}

/// The text of a plain text file: none when it is empty; otherwise decoded
/// in the guessed encoding (see [`settled_text`]).
pub fn decode_text_smart(bytes: &[u8]) -> (r: Option<String>)
    ensures
        match r {
            None => bytes@.len() == 0,
            Some(t) => bytes@.len() > 0 && t@ == settled_text(
                guessed_encoding(bytes@),
                decoded_with(guessed_encoding(bytes@), bytes@),
                bytes@,
            ),
        },
{
    if bytes.len() == 0 {
        return None;
    }
    let name = guess_encoding_name(bytes);
    let decoded = decode_with_label(name, bytes);
    Some(settle_decoding(name, decoded, bytes))
}

} // verus!
