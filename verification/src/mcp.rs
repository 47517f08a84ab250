//! The read-only MCP tools over the local index: checking and normalising
//! their parameters, and shaping their results (hits are marked with « and »
//! in the text so that an agent reads them directly).

use vstd::prelude::*;
use vstd::string::*;
use crate::highlight::{byte_len, utf8_len, wrap_from, wrap_highlight_ranges};
use crate::meta::strs;
use crate::extract::IndexRules;
use crate::text::{
    ascii_lower, chars_of, split_chars, split_on, str_eq, string_from_chars, to_ascii_lower, trim,
    trim_chars, views,
};

verus! {

/// The mark put before a hit.
pub const HL_OPEN: &'static str = "«";
/// The mark put after a hit.
pub const HL_CLOSE: &'static str = "»";
/// The number of hits returned when the agent does not say.
pub const DEFAULT_SEARCH_LIMIT: usize = 10;
/// The longest query accepted, in UTF-8 bytes.
pub const MAX_MCP_QUERY_BYTES: usize = 8192;
/// The largest offset honoured; larger ones are cut down to it.
pub const MAX_MCP_OFFSET: usize = 100_000;

/// The hit ranges (bytes) of a fragment marked with « and ».
pub fn mark_highlights(fragment: &str, ranges: &Vec<(usize, usize)>) -> (r: String)
    ensures
        r@ == wrap_from(fragment@, ranges@, 0, 0, HL_OPEN@, HL_CLOSE@),
{
    wrap_highlight_ranges(fragment, ranges, HL_OPEN, HL_CLOSE)
}

/// The extension filter pieces, trimmed and lower-cased, with the empty
/// ones dropped.
pub open spec fn clean_ext(ps: Seq<Seq<char>>) -> Seq<Seq<char>>
    decreases ps.len(),
{
    if ps.len() == 0 {
        Seq::empty()
    } else {
        let r = clean_ext(ps.drop_last());
        let t = ascii_lower(trim(ps.last()));
        if t.len() > 0 {
            r.push(t)
        } else {
            r
        }
    }
}

/// Cleans extension pieces (see [`clean_ext`]).
pub fn clean_ext_tokens(pieces: Vec<String>) -> (r: Vec<String>)
    ensures
        strs(r@) == clean_ext(strs(pieces@)),
{
    let mut out: Vec<String> = Vec::new();
    let mut i: usize = 0;
    while i < pieces.len()
        invariant
            i <= pieces@.len(),
            strs(out@) == clean_ext(strs(pieces@).take(i as int)),
        decreases pieces.len() - i,
    {
        let c = chars_of(pieces[i].as_str());
        let t = to_ascii_lower(&trim_chars(&c));
        assert(strs(pieces@).take(i + 1).drop_last() =~= strs(pieces@).take(i as int));
        assert(strs(pieces@).take(i + 1).last() == pieces@[i as int]@);
        if t.len() > 0 {
            let ghost before = out@;
            out.push(string_from_chars(&t));
            assert(strs(out@) =~= strs(before).push(t@));
        }
        i += 1;
    }
    assert(strs(pieces@).take(pieces@.len() as int) =~= strs(pieces@));
    out
}

/// The extensions of a comma-separated filter (`"md, PDF"` gives `md`, `pdf`).
pub fn ext_tokens(raw: &str) -> (r: Vec<String>)
    ensures
        strs(r@) == clean_ext(split_on(raw@, ',')),
{
    let parts = split_chars(&chars_of(raw), ',');
    let mut pieces: Vec<String> = Vec::new();
    let mut i: usize = 0;
    while i < parts.len()
        invariant
            i <= parts@.len(),
            views(parts@) == split_on(raw@, ','),
            strs(pieces@) == views(parts@).take(i as int),
        decreases parts.len() - i,
    {
        let ghost before = pieces@;
        assert(views(parts@)[i as int] == parts@[i as int]@);
        pieces.push(string_from_chars(&parts[i]));
        assert(strs(pieces@) =~= strs(before).push(parts@[i as int]@));
        assert(views(parts@).take(i + 1) =~= views(parts@).take(i as int).push(views(parts@)[i as int]));
        i += 1;
    }
    assert(views(parts@).take(parts@.len() as int) =~= views(parts@));
    clean_ext_tokens(pieces)
}

/// The orders a search can be sorted in.
#[derive(Debug, Clone, Copy, PartialEq, Eq, Structural)]
pub enum SortMode {
    Relevance,
    MtimeDesc,
    MtimeAsc,
    SizeDesc,
}

/// Why the parameters of a tool call are refused.
#[derive(Debug, Clone, PartialEq, Eq)]
pub enum ParamError {
    /// The query is empty or blank.
    EmptyQuery,
    /// The query is over [`MAX_MCP_QUERY_BYTES`].
    QueryTooLong,
    /// A limit of zero.
    ZeroLimit,
    /// An extension filter with no extension in it.
    EmptyExt,
    /// A sort order other than relevance, mtime or size; holds it.
    UnknownSort(String),
    /// The path is empty or blank.
    EmptyPath,
}

/// The sort order an agent names: none or `relevance` is relevance, `mtime`
/// newest first, `size` largest first; anything else is refused.
pub open spec fn sort_of(raw: Option<Seq<char>>) -> Option<SortMode> {
    match raw {
        None => Some(SortMode::Relevance),
        Some(s) => if s == "relevance"@ {
            Some(SortMode::Relevance)
        } else if s == "mtime"@ {
            Some(SortMode::MtimeDesc)
        } else if s == "size"@ {
            Some(SortMode::SizeDesc)
        } else {
            None
        },
    }
}

/// Maps the `sort` parameter (see [`sort_of`]).
pub fn parse_sort(raw: Option<&str>) -> (r: Result<SortMode, ParamError>)
    ensures
        match (r, sort_of(
            match raw {
                Some(s) => Some(s@),
                None => None,
            },
        )) {
            (Ok(m), Some(m2)) => m == m2,
            (Err(ParamError::UnknownSort(v)), None) => raw is Some && v@ == raw.unwrap()@,
            _ => false,
        },
{
    match raw {
        None => Ok(SortMode::Relevance),
        Some(s) => {
            if str_eq(s, "relevance") {
                Ok(SortMode::Relevance)
            } else if str_eq(s, "mtime") {
                Ok(SortMode::MtimeDesc)
            } else if str_eq(s, "size") {
                Ok(SortMode::SizeDesc)
            } else {
                Err(ParamError::UnknownSort(String::from_str(s)))
            }
        },
    }
}

fn utf8_byte_len(s: &Vec<char>) -> (n: u128)
    ensures
        n == byte_len(s@),
{
    let mut acc: u128 = 0;
    let mut k: usize = 0;
    while k < s.len()
        invariant
            k <= s@.len(),
            acc == crate::highlight::byte_pos(s@, k as int),
            acc <= 4 * k,
        decreases s.len() - k,
    {
        let v = s[k] as u32;
        let d: u128 = if v < 0x80 {
            1
        } else if v < 0x800 {
            2
        } else if v < 0x10000 {
            3
        } else {
            4
        };
        assert(d == utf8_len(s@[k as int]));
        acc = acc + d;
        k += 1;
    }
    acc
}

/// Whether a query is acceptable: not blank, and not over the byte limit.
pub open spec fn query_check(q: Seq<char>) -> Option<ParamError> {
    if trim(q).len() == 0 {
        Some(ParamError::EmptyQuery)
    } else if byte_len(q) > MAX_MCP_QUERY_BYTES {
        Some(ParamError::QueryTooLong)
    } else {
        None
    }
}

fn check_query(q: &str) -> (r: Result<(), ParamError>)
    ensures
        match (r, query_check(q@)) {
            (Ok(()), None) => true,
            (Err(e), Some(e2)) => e == e2,
            _ => false,
        },
{
    let c = chars_of(q);
    if trim_chars(&c).len() == 0 {
        return Err(ParamError::EmptyQuery);
    }
    if utf8_byte_len(&c) > MAX_MCP_QUERY_BYTES as u128 {
        return Err(ParamError::QueryTooLong);
    }
    Ok(())
}

/// The parameters of the search tool.
#[derive(Debug, Clone)]
pub struct SearchParams {
    pub query: String,
    pub limit: Option<usize>,
    pub offset: Option<usize>,
    pub ext: Option<String>,
    pub sort: Option<String>,
}

/// The parameters of the preview tool.
#[derive(Debug, Clone)]
pub struct PreviewParams {
    pub path: String,
    pub query: String,
}

/// A checked search request.
#[derive(Debug, Clone)]
pub struct SearchPlan {
    pub limit: usize,
    pub offset: usize,
    pub sort: SortMode,
    /// The extensions to keep; empty for no filter.
    pub exts: Vec<String>,
    /// Whether hits carry their score (relevance order only).
    pub include_score: bool,
}

pub open spec fn opt_view(o: Option<String>) -> Option<Seq<char>> {
    match o {
        Some(s) => Some(s@),
        None => None,
    }
}

/// What a search request comes to: the query is checked first, then the
/// limit (default 10, not zero), the sort order, and the extension filter
/// (given, it must name at least one extension); the offset (default 0) is
/// cut down to [`MAX_MCP_OFFSET`].
pub open spec fn search_plan_ok(p: SearchParams, plan: SearchPlan) -> bool {
    &&& query_check(p.query@) is None
    &&& plan.limit == match p.limit {
        Some(l) => l,
        None => DEFAULT_SEARCH_LIMIT,
    }
    &&& plan.limit > 0
    &&& plan.offset == {
        let o = match p.offset {
            Some(o) => o,
            None => 0,
        };
        if o < MAX_MCP_OFFSET {
            o
        } else {
            MAX_MCP_OFFSET
        }
    }
    &&& sort_of(opt_view(p.sort)) == Some(plan.sort)
    &&& strs(plan.exts@) == match p.ext {
        Some(e) => clean_ext(split_on(e@, ',')),
        None => Seq::empty(),
    }
    &&& plan.exts@.len() > 0 || p.ext is None
    &&& plan.include_score == (plan.sort == SortMode::Relevance)
}

/// The error a search request is refused with, checked in that order.
pub open spec fn search_error(p: SearchParams) -> Option<ParamError> {
    if query_check(p.query@) is Some {
        query_check(p.query@)
    } else if p.limit == Some(0usize) {
        Some(ParamError::ZeroLimit)
    } else if sort_of(opt_view(p.sort)) is None {
        Some(ParamError::UnknownSort(p.sort.unwrap()))
    } else if p.ext is Some && clean_ext(split_on(p.ext.unwrap()@, ',')).len() == 0 {
        Some(ParamError::EmptyExt)
    } else {
        None
    }
}

pub open spec fn param_error_eq(a: ParamError, b: ParamError) -> bool {
    match (a, b) {
        (ParamError::UnknownSort(x), ParamError::UnknownSort(y)) => x@ == y@,
        _ => a == b,
    }
}

/// Checks the parameters of a search call.
pub fn check_search_params(p: &SearchParams) -> (r: Result<SearchPlan, ParamError>)
    ensures
        match (r, search_error(*p)) {
            (Ok(plan), None) => search_plan_ok(*p, plan),
            (Err(e), Some(e2)) => param_error_eq(e, e2),
            _ => false,
        },
{
    match check_query(p.query.as_str()) {
        Ok(()) => {},
        Err(e) => return Err(e),
    }
    let limit = match p.limit {
        Some(l) => l,
        None => DEFAULT_SEARCH_LIMIT,
    };
    if limit == 0 {
        return Err(ParamError::ZeroLimit);
    }
    let offset = match p.offset {
        Some(o) => if o < MAX_MCP_OFFSET {
            o
        } else {
            MAX_MCP_OFFSET
        },
        None => 0,
    };
    let sort = match &p.sort {
        Some(s) => parse_sort(Some(s.as_str())),
        None => parse_sort(None),
    };
    let sort = match sort {
        Ok(m) => m,
        Err(e) => return Err(e),
    };
    let exts = match &p.ext {
        Some(raw) => {
            let t = ext_tokens(raw.as_str());
            if t.len() == 0 {
                return Err(ParamError::EmptyExt);
            }
            t
        },
        None => {
            let v: Vec<String> = Vec::new();
            assert(strs(v@) =~= Seq::<Seq<char>>::empty());
            v
        },
    };
    let include_score = match sort {
        SortMode::Relevance => true,
        _ => false,
    };
    Ok(SearchPlan { limit, offset, sort, exts, include_score })
}

/// The error a preview request is refused with: a blank path first, then
/// the query checks.
pub open spec fn preview_error(p: PreviewParams) -> Option<ParamError> {
    if trim(p.path@).len() == 0 {
        Some(ParamError::EmptyPath)
    } else {
        query_check(p.query@)
    }
}

/// Checks the parameters of a preview call.
pub fn check_preview_params(p: &PreviewParams) -> (r: Result<(), ParamError>)
    ensures
        match (r, preview_error(*p)) {
            (Ok(()), None) => true,
            (Err(e), Some(e2)) => e == e2,
            _ => false,
        },
{
    let c = chars_of(p.path.as_str());
    if trim_chars(&c).len() == 0 {
        return Err(ParamError::EmptyPath);
    }
    check_query(p.query.as_str())
}

/// The preview tool's result.
#[derive(Debug, Clone, PartialEq, Eq)]
pub struct PreviewOutput {
    /// The hit context, hits marked with « and ».
    pub snippet: String,
    /// The file's size in bytes.
    pub size: u64,
    /// The file's modification time, Unix milliseconds.
    pub mtime_unix_ms: i64,
    /// The file's extension, lower case, without the dot.
    pub kind: String,
}

/// Shapes a preview hit for the agent.
pub fn to_preview_output(snippet: &str, highlighted: &Vec<(usize, usize)>, size: u64, mtime: i64, ext: String) -> (o: PreviewOutput)
    ensures
        o.snippet@ == wrap_from(snippet@, highlighted@, 0, 0, HL_OPEN@, HL_CLOSE@),
        o.size == size,
        o.mtime_unix_ms == mtime,
        o.kind == ext,
{
    PreviewOutput { snippet: mark_highlights(snippet, highlighted), size, mtime_unix_ms: mtime, kind: ext }
}

/// The index rules as shown to the agent.
#[derive(Debug, Clone, PartialEq, Eq)]
pub struct IndexRulesOut {
    pub exclude_dirs: Vec<String>,
    pub extra_text_exts: Vec<String>,
    pub max_file_mb: u64,
}

/// The index status tool's result.
#[derive(Debug, Clone, PartialEq, Eq)]
pub struct IndexStatusOutput {
    pub num_docs: u64,
    pub roots: Vec<String>,
    pub disk_size_bytes: u64,
    /// The last update, Unix milliseconds; `None` when it cannot be read.
    pub last_updated_unix_ms: Option<i64>,
    pub rules: IndexRulesOut,
}

/// The index status as the tool reports it: the count, the roots in
/// display form, the size on disk, the last update (read by the caller
/// from the index directory's modification time), and the rules.
pub fn to_index_status_output(
    num_docs: u64,
    roots: Vec<String>,
    disk_size_bytes: u64,
    last_updated_unix_ms: Option<i64>,
    rules: &IndexRules,
) -> (o: IndexStatusOutput)
    ensures
        o.num_docs == num_docs,
        o.roots == roots,
        o.disk_size_bytes == disk_size_bytes,
        o.last_updated_unix_ms == last_updated_unix_ms,
        strs(o.rules.exclude_dirs@) == strs(rules.exclude_dirs@),
        strs(o.rules.extra_text_exts@) == strs(rules.extra_text_exts@),
        o.rules.max_file_mb == rules.max_file_mb,
{
    IndexStatusOutput {
        num_docs,
        roots,
        disk_size_bytes,
        last_updated_unix_ms,
        rules: IndexRulesOut {
            exclude_dirs: copy_strings(&rules.exclude_dirs),
            extra_text_exts: copy_strings(&rules.extra_text_exts),
            max_file_mb: rules.max_file_mb,
        },
    }
}

fn copy_strings(v: &Vec<String>) -> (r: Vec<String>)
    ensures
        strs(r@) == strs(v@),
{
    let mut r: Vec<String> = Vec::new();
    let mut i: usize = 0;
    while i < v.len()
        invariant
            i <= v@.len(),
            strs(r@) == strs(v@).take(i as int),
        decreases v.len() - i,
    {
        let ghost before = strs(r@);
        let c = v[i].clone();
        r.push(c);
        assert(strs(r@) =~= before.push(v@[i as int]@));
        assert(strs(v@).take(i + 1) =~= strs(v@).take(i as int).push(v@[i as int]@));
        i += 1;
    }
    assert(strs(v@).take(v@.len() as int) =~= strs(v@));
    r
}

/// The tool-level error of an index that cannot be opened: its kind, a
/// sentence with the cause, and how to build one.
pub const UNAVAILABLE_ERROR: &'static str = "index_unavailable";
pub const UNAVAILABLE_HINT: &'static str = "先用 `dowse index <目录>` 建一次索引";

/// The sentence of an unavailable index: "索引不可用：" and the cause.
pub fn unavailable_message(cause: &str) -> (m: String)
    ensures
        m@ == "索引不可用："@ + cause@,
{
    let mut m = String::from_str("索引不可用：");
    m.append(cause);
    m
}

/// The MCP server over one index directory.
#[derive(Debug, Clone)]
pub struct DowseMcpServer {
    index_dir: String,
}

impl DowseMcpServer {
    pub closed spec fn dir(&self) -> Seq<char> {
        self.index_dir@
    }

    pub fn new(index_dir: String) -> (s: DowseMcpServer)
        ensures
            s.dir() == index_dir@,
    {
        DowseMcpServer { index_dir }
    }

    /// The index directory the tools read.
    pub fn index_dir(&self) -> (d: &str)
        ensures
            d@ == self.dir(),
    {
        self.index_dir.as_str()
    }
}

} // verus!
