//! Inline operators in the search query string.
//!
//! A query without any operator is handed back untouched (`has_operators` is
//! false) so that callers keep the plain full-text path. With operators, the
//! query is split into OR groups; inside a group every condition is ANDed:
//! content words, excluded words (`-word`, `NOT word`), `path:` filters,
//! `mtime:` date filters and `size:` size filters.

use vstd::prelude::*;
use crate::text::{
    all_digits, ascii_lower, char_is_white_space, digit_value, digits_value, is_ascii_alpha,
    is_ascii_digit, is_white_space, lemma_digits_value_prefix, lemma_pow10_positive,
    lemma_split_on_nonempty, pow10, split_chars, split_on, string_from_chars, sub_chars,
    to_ascii_lower, trim, trim_chars, views, chars_of, chars_eq, index_of, find_char,
    lemma_digits_value_bound, lemma_digits_value_first, all_digits_vec, lemma_trim_unchanged, lemma_index_of_from, ascii_lower_char, chars_are1, chars_are2, chars_are3,
};
use vstd::arithmetic::div_mod::{lemma_div_denominator, lemma_hoist_over_denominator, lemma_mod_multiples_vanish};

verus! {

/// Comparison operator shared by the date and size filters.
#[derive(Debug, Clone, Copy, PartialEq, Eq, Structural)]
pub enum Cmp {
    /// `>`
    Gt,
    /// `>=`
    Ge,
    /// `<`
    Lt,
    /// `<=`
    Le,
}

/// An `mtime:` filter, reduced to the UTC millisecond timestamps of the start
/// of the named day (or month) and of the start of the next one.
#[derive(Debug, Clone, Copy, PartialEq, Eq, Structural)]
pub struct DateBound {
    pub cmp: Cmp,
    pub start_ms: i64,
    pub next_ms: i64,
}

/// A `size:` filter with its threshold converted to bytes.
#[derive(Debug, Clone, Copy, PartialEq, Eq, Structural)]
pub struct SizeBound {
    pub cmp: Cmp,
    pub bytes: u64,
}

/// The operand of a `path:` filter; `phrase` records whether it was quoted.
#[derive(Debug, Clone, PartialEq, Eq)]
pub struct PathTerm {
    pub operand: String,
    pub phrase: bool,
}

/// One AND group (the text between two `OR`s).
#[derive(Debug, PartialEq, Eq)]
pub struct Group {
    /// Content words, quotes kept as written.
    pub content: Vec<String>,
    /// Excluded words (`-word` or `NOT word`), quotes kept as written.
    pub excluded: Vec<String>,
    pub paths: Vec<PathTerm>,
    pub mtimes: Vec<DateBound>,
    pub sizes: Vec<SizeBound>,
}

/// The result of parsing a query string.
#[derive(Debug, PartialEq, Eq)]
pub struct Parsed {
    /// Whether any operator occurs; when false, `groups` is empty.
    pub has_operators: bool,
    /// The non-empty AND groups, in order.
    pub groups: Vec<Group>,
}

/// Why a query string was rejected.
#[derive(Debug, Clone, PartialEq, Eq)]
pub enum QueryError {
    /// `NOT` with nothing after it.
    MissingExcludedTerm,
    /// `path:` with an empty (or blank, or empty quoted) operand.
    EmptyPathOperand,
    /// A date or size operand without `>`, `>=`, `<` or `<=`; holds the operand.
    MissingComparator(String),
    /// A date that is not `YYYY-MM-DD` or `YYYY-MM`; holds the date text.
    MalformedDate(String),
    /// A month outside `1..=12`; holds the date text.
    MonthOutOfRange(String),
    /// A day outside the month; holds the date text and the month's length.
    DayOutOfRange(String, u32),
    /// `size:` with a comparator and nothing else.
    MissingSize,
    /// The number of a size cannot be read; holds the size text.
    MalformedSizeNumber(String),
    /// A size unit other than b, k, kb, m, mb, g, gb; holds the lower-cased unit.
    UnknownSizeUnit(String),
    /// Only connectives (`OR`) and no condition at all.
    NoSearchTerms,
}

/// The mathematical content of a [`QueryError`].
pub enum QueryErrorSpec {
    MissingExcludedTerm,
    EmptyPathOperand,
    MissingComparator(Seq<char>),
    MalformedDate(Seq<char>),
    MonthOutOfRange(Seq<char>),
    DayOutOfRange(Seq<char>, u32),
    MissingSize,
    MalformedSizeNumber(Seq<char>),
    UnknownSizeUnit(Seq<char>),
    NoSearchTerms,
}

impl View for QueryError {
    type V = QueryErrorSpec;

    open spec fn view(&self) -> QueryErrorSpec {
        match self {
            QueryError::MissingExcludedTerm => QueryErrorSpec::MissingExcludedTerm,
            QueryError::EmptyPathOperand => QueryErrorSpec::EmptyPathOperand,
            QueryError::MissingComparator(s) => QueryErrorSpec::MissingComparator(s@),
            QueryError::MalformedDate(s) => QueryErrorSpec::MalformedDate(s@),
            QueryError::MonthOutOfRange(s) => QueryErrorSpec::MonthOutOfRange(s@),
            QueryError::DayOutOfRange(s, d) => QueryErrorSpec::DayOutOfRange(s@, *d),
            QueryError::MissingSize => QueryErrorSpec::MissingSize,
            QueryError::MalformedSizeNumber(s) => QueryErrorSpec::MalformedSizeNumber(s@),
            QueryError::UnknownSizeUnit(s) => QueryErrorSpec::UnknownSizeUnit(s@),
            QueryError::NoSearchTerms => QueryErrorSpec::NoSearchTerms,
        }
    }
}

/// The mathematical content of a [`Group`].
#[verifier::ext_equal]
pub struct GroupSpec {
    pub content: Seq<Seq<char>>,
    pub excluded: Seq<Seq<char>>,
    pub paths: Seq<(Seq<char>, bool)>,
    pub mtimes: Seq<DateBound>,
    pub sizes: Seq<SizeBound>,
}

pub open spec fn strs(v: Seq<String>) -> Seq<Seq<char>> {
    v.map_values(|s: String| s@)
}

pub open spec fn path_terms(v: Seq<PathTerm>) -> Seq<(Seq<char>, bool)> {
    v.map_values(|p: PathTerm| (p.operand@, p.phrase))
}

impl View for Group {
    type V = GroupSpec;

    open spec fn view(&self) -> GroupSpec {
        GroupSpec {
            content: strs(self.content@),
            excluded: strs(self.excluded@),
            paths: path_terms(self.paths@),
            mtimes: self.mtimes@,
            sizes: self.sizes@,
        }
    }
}

pub open spec fn groups_view(v: Seq<Group>) -> Seq<GroupSpec> {
    v.map_values(|g: Group| g@)
}

pub open spec fn empty_group() -> GroupSpec {
    GroupSpec {
        content: Seq::empty(),
        excluded: Seq::empty(),
        paths: Seq::empty(),
        mtimes: Seq::empty(),
        sizes: Seq::empty(),
    }
}

pub open spec fn group_is_empty(g: GroupSpec) -> bool {
    g.content.len() == 0 && g.excluded.len() == 0 && g.paths.len() == 0 && g.mtimes.len() == 0
        && g.sizes.len() == 0
}

// ---------------------------------------------------------------------------
// Calendar arithmetic
// ---------------------------------------------------------------------------

/// Milliseconds in a UTC day.
pub const MS_PER_DAY: i64 = 86_400_000;

/// Gregorian leap year.
pub open spec fn is_leap_year(year: int) -> bool {
    (year % 4 == 0 && year % 100 != 0) || year % 400 == 0
}

/// Gregorian leap year test.
pub fn is_leap(year: i64) -> (b: bool)
    ensures
        b == is_leap_year(year as int),
{
    (year % 4 == 0 && year % 100 != 0) || year % 400 == 0
}

/// Length of a month; months outside `1..=12` count 30 days.
pub open spec fn month_length(year: int, month: int) -> int {
    if month == 1 || month == 3 || month == 5 || month == 7 || month == 8 || month == 10
        || month == 12 {
        31
    } else if month == 4 || month == 6 || month == 9 || month == 11 {
        30
    } else if month == 2 {
        if is_leap_year(year) {
            29
        } else {
            28
        }
    } else {
        30
    }
}

/// Number of days in a month (February follows the leap-year rule).
pub fn days_in_month(year: i64, month: u32) -> (d: u32)
    ensures
        d == month_length(year as int, month as int),
{
    match month {
        1 | 3 | 5 | 7 | 8 | 10 | 12 => 31,
        4 | 6 | 9 | 11 => 30,
        2 => {
            if is_leap(year) {
                29
            } else {
                28
            }
        },
        _ => 30,
    }
}

/// Days from 1970-01-01 to the given proleptic Gregorian date (the
/// `days_from_civil` formula, with floor division).
pub open spec fn days_from_civil(year: int, month: int, day: int) -> int {
    let y = if month <= 2 {
        year - 1
    } else {
        year
    };
    let era = y / 400;
    let yoe = y - era * 400;
    let mp = if month > 2 {
        month - 3
    } else {
        month + 9
    };
    let doy = (153 * mp + 2) / 5 + day - 1;
    let doe = yoe * 365 + yoe / 4 - yoe / 100 + doy;
    era * 146097 + doe - 719468
}

pub open spec fn clamp_i64(x: int) -> i64 {
    if x > i64::MAX {
        i64::MAX
    } else if x < i64::MIN {
        i64::MIN
    } else {
        x as i64
    }
}

pub open spec fn clamp_u64(x: int) -> u64 {
    if x > u64::MAX {
        u64::MAX
    } else if x < 0 {
        0
    } else {
        x as u64
    }
}

/// The UTC millisecond timestamp of midnight at the start of a date,
/// saturated to the `i64` range.
pub open spec fn date_ms(year: int, month: int, day: int) -> i64 {
    clamp_i64(days_from_civil(year, month, day) * MS_PER_DAY)
}

/// Midnight (UTC) at the start of the given date as milliseconds since the
/// Unix epoch, saturated to the `i64` range for extreme years.
pub fn date_to_ms(year: i64, month: u32, day: u32) -> (ms: i64)
    ensures
        ms == date_ms(year as int, month as int, day as int),
{
    let m = month as i128;
    let d = day as i128;
    let y: i128 = if m <= 2 {
        year as i128 - 1
    } else {
        year as i128
    };
    let era: i128 = if y >= 0 {
        y / 400
    } else {
        -((-y + 399) / 400)
    };
    assert(era == y / 400 && -23058430092136940 <= era <= 23058430092136940) by {
        if y < 0 {
            assert(-((-y + 399) / 400) == y / 400) by (nonlinear_arith)
                requires
                    y < 0,
            ;
        }
        assert(-23058430092136940 <= y / 400 <= 23058430092136940) by (nonlinear_arith)
            requires
                -9223372036854775809 <= y <= 9223372036854775807,
        ;
    }
    let yoe: i128 = y - era * 400;
    let mp: i128 = if m > 2 {
        m - 3
    } else {
        m + 9
    };
    let doy: i128 = (153 * mp + 2) / 5 + d - 1;
    let doe: i128 = yoe * 365 + yoe / 4 - yoe / 100 + doy;
    assert(0 <= yoe < 400) by (nonlinear_arith)
        requires
            era == y / 400,
            yoe == y - era * 400,
    ;
    assert(0 <= (153 * mp + 2) / 5 <= 153 * mp + 2) by (nonlinear_arith)
        requires
            0 <= mp,
    ;
    let days: i128 = era * 146097 + doe - 719468;
    assert(-4000000000000000000000 <= days <= 4000000000000000000000);
    assert(-400000000000000000000000000000 <= days * 86400000 <= 400000000000000000000000000000)
        by (nonlinear_arith)
        requires
            -4000000000000000000000 <= days <= 4000000000000000000000,
    ;
    let ms: i128 = days * (MS_PER_DAY as i128);
    if ms > i64::MAX as i128 {
        i64::MAX
    } else if ms < i64::MIN as i128 {
        i64::MIN
    } else {
        ms as i64
    }
}


/// The day after a valid date: the next day of the month, or the first of the
/// next month, or New Year's Day.
pub open spec fn next_date(year: int, month: int, day: int) -> (int, int, int) {
    if day < month_length(year, month) {
        (year, month, day + 1)
    } else if month < 12 {
        (year, month + 1, 1)
    } else {
        (year + 1, 1, 1)
    }
}

/// Day number of the 1 March that starts the March-based year `y`.
spec fn march_start(y: int) -> int {
    let era = y / 400;
    let yoe = y - era * 400;
    era * 146097 + yoe * 365 + yoe / 4 - yoe / 100
}

proof fn lemma_march_year_length(y: int)
    ensures
        march_start(y + 1) - march_start(y) == if is_leap_year(y + 1) {
            366int
        } else {
            365int
        },
{
    let e = y / 400;
    let r = y - e * 400;
    assert(0 <= r < 400) by (nonlinear_arith)
        requires
            e == y / 400,
            r == y - e * 400,
    ;
    assert((y + 1) % 4 == (r + 1) % 4 && (y + 1) % 100 == (r + 1) % 100 && (y + 1) % 400 == (r
        + 1) % 400) by {
        lemma_mod_multiples_vanish(100 * e, r + 1, 4);
        lemma_mod_multiples_vanish(4 * e, r + 1, 100);
        lemma_mod_multiples_vanish(e, r + 1, 400);
    }
    if r < 399 {
        assert((y + 1) / 400 == e) by (nonlinear_arith)
            requires
                y == e * 400 + r,
                0 <= r < 399,
        ;
        let ru = r as u32;
        assert(ru < 399 ==> ((ru + 1) / 4 - ru / 4 == (if (ru + 1) % 4 == 0 {
            1u32
        } else {
            0u32
        }) && (ru + 1) / 100 - ru / 100 == (if (ru + 1) % 100 == 0 {
            1u32
        } else {
            0u32
        }) && ((ru + 1) % 100 == 0 ==> (ru + 1) % 4 == 0) && (ru + 1) % 400 != 0))
            by (bit_vector);
    } else {
        assert((y + 1) / 400 == e + 1) by (nonlinear_arith)
            requires
                y == e * 400 + 399,
        ;
    }
}

/// Calendar law: consecutive dates are consecutive day numbers; in
/// particular the day after the last of a month is the first of the next
/// month, and 31 December is followed by 1 January of the next year.
pub proof fn lemma_next_date_is_next_day(year: int, month: int, day: int)
    requires
        1 <= month <= 12,
        1 <= day <= month_length(year, month),
    ensures
        days_from_civil(next_date(year, month, day).0, next_date(year, month, day).1,
            next_date(year, month, day).2) == days_from_civil(year, month, day) + 1,
{
    if day < month_length(year, month) {
    } else if month == 2 {
        lemma_march_year_length(year - 1);
    } else if month == 12 {
        assert(days_from_civil(year + 1, 1, 1) == march_start(year) + 306 - 719468);
        assert(days_from_civil(year, 12, 31) == march_start(year) + 305 - 719468);
    }
}

/// `YYYY-MM-DD` filters: the span of a day ends exactly where the next date
/// begins, so `+86 400 000` ms is the start of the next date (as long as the
/// day's start is not clamped at the bottom of the `i64` range).
pub proof fn lemma_day_span_ends_at_next_date(year: int, month: int, day: int)
    requires
        1 <= month <= 12,
        1 <= day <= month_length(year, month),
        days_from_civil(year, month, day) * MS_PER_DAY >= i64::MIN,
    ensures
        sat_add_i64(date_ms(year, month, day) as int, MS_PER_DAY as int) == date_ms(
            next_date(year, month, day).0,
            next_date(year, month, day).1,
            next_date(year, month, day).2,
        ),
{
    lemma_next_date_is_next_day(year, month, day);
    let dd = days_from_civil(year, month, day);
    assert((dd + 1) * MS_PER_DAY == dd * MS_PER_DAY + MS_PER_DAY) by (nonlinear_arith);
}

/// `YYYY-MM` filters: a month's span ends where the span of its last day
/// ends, i.e. at the first instant of the next month (as long as the month's
/// start is not clamped at the bottom of the `i64` range).
pub proof fn lemma_month_span_ends_with_last_day(year: int, month: int)
    requires
        1 <= month <= 12,
        i64::MIN <= year <= i64::MAX,
        days_from_civil(year, month, 1) * MS_PER_DAY >= i64::MIN,
    ensures
        (if month == 12 {
            date_ms(sat_add_i64(year, 1), 1, 1)
        } else {
            date_ms(year, month + 1, 1)
        }) == sat_add_i64(
            date_ms(year, month, month_length(year, month)) as int,
            MS_PER_DAY as int,
        ),
{
    let last = month_length(year, month);
    assert(days_from_civil(year, month, last) == days_from_civil(year, month, 1) + last - 1);
    assert(days_from_civil(year, month, 1) * MS_PER_DAY <= days_from_civil(year, month, last)
        * MS_PER_DAY) by (nonlinear_arith)
        requires
            days_from_civil(year, month, 1) <= days_from_civil(year, month, last),
    ;
    lemma_day_span_ends_at_next_date(year, month, last);
    if month == 12 && year == i64::MAX {
        assert(days_from_civil(year, 12, 31) * MS_PER_DAY > i64::MAX);
        assert(days_from_civil(year, 1, 1) * MS_PER_DAY > i64::MAX);
    }
}

// ---------------------------------------------------------------------------
// Signed decimal numbers (`str::parse::<i64>`)
// ---------------------------------------------------------------------------

/// What `str::parse::<i64>` accepts: an optional `+` or `-`, then one or more
/// ASCII digits, with a value in the `i64` range.
pub open spec fn parse_i64_text(s: Seq<char>) -> Option<int> {
    if s.len() > 0 && (s[0] == '+' || s[0] == '-') {
        let r = s.skip(1);
        if r.len() > 0 && all_digits(r) {
            let v: int = if s[0] == '-' {
                -digits_value(r)
            } else {
                digits_value(r) as int
            };
            if i64::MIN <= v <= i64::MAX {
                Some(v)
            } else {
                None
            }
        } else {
            None
        }
    } else if s.len() > 0 && all_digits(s) && digits_value(s) <= i64::MAX {
        Some(digits_value(s) as int)
    } else {
        None
    }
}

/// Reads an unsigned digit string, giving up once the value passes `limit`.
fn read_digits(s: &Vec<char>, start: usize, limit: u128) -> (r: Option<u128>)
    requires
        start <= s.len(),
        limit < 0x1000_0000_0000_0000_0000_0000_0000_0000,
    ensures
        match r {
            Some(v) => all_digits(s@.skip(start as int)) && v == digits_value(
                s@.skip(start as int),
            ) && v <= limit,
            None => !all_digits(s@.skip(start as int)) || digits_value(s@.skip(start as int))
                > limit,
        },
{
    let ghost t = s@.skip(start as int);
    let mut acc: u128 = 0;
    let mut i = start;
    while i < s.len()
        invariant
            start <= i <= s.len(),
            t == s@.skip(start as int),
            limit < 0x1000_0000_0000_0000_0000_0000_0000_0000,
            all_digits(t.take(i - start)),
            acc == digits_value(t.take(i - start)),
            acc <= limit,
        decreases s.len() - i,
    {
        let c = s[i];
        proof {
            assert(t[i - start] == c);
            assert(t.take(i - start + 1).drop_last() == t.take(i - start));
        }
        if !('0' <= c && c <= '9') {
            assert(!all_digits(t)) by {
                assert(!is_ascii_digit(t[i - start]));
            }
            return None;
        }
        let d = (c as u32 - '0' as u32) as u128;
        let next = acc * 10 + d;
        assert(digits_value(t.take(i - start + 1)) == next) by {
            assert(t.take(i - start + 1).last() == c);
        }
        if next > limit {
            proof {
                lemma_digits_value_prefix(t, i - start + 1);
            }
            return None;
        }
        acc = next;
        i += 1;
        assert(all_digits(t.take(i - start))) by {
            assert forall|k: int| 0 <= k < i - start implies is_ascii_digit(
                #[trigger] t.take(i - start)[k],
            ) by {
                if k < i - start - 1 {
                    assert(t.take(i - start)[k] == t.take(i - start - 1)[k]);
                }
            }
        }
    }
    assert(t.take(i - start) == t);
    Some(acc)
}

/// `str::parse::<i64>` on a character vector.
pub fn parse_i64(s: &Vec<char>) -> (r: Option<i64>)
    ensures
        match r {
            Some(v) => parse_i64_text(s@) == Some(v as int),
            None => parse_i64_text(s@).is_none(),
        },
{
    if s.len() > 0 && (s[0] == '+' || s[0] == '-') {
        if s.len() == 1 {
            return None;
        }
        let neg = s[0] == '-';
        let limit: u128 = if neg {
            9223372036854775808
        } else {
            9223372036854775807
        };
        match read_digits(s, 1, limit) {
            Some(v) => {
                if neg {
                    Some((0 - v as i128) as i64)
                } else {
                    Some(v as i64)
                }
            },
            None => None,
        }
    } else {
        if s.len() == 0 {
            return None;
        }
        match read_digits(s, 0, 9223372036854775807) {
            Some(v) => {
                assert(s@.skip(0) == s@);
                Some(v as i64)
            },
            None => {
                assert(s@.skip(0) == s@);
                None
            },
        }
    }
}


// ---------------------------------------------------------------------------
// Comparators and dates
// ---------------------------------------------------------------------------

/// Splits the comparator off a filter operand; two-character comparators are
/// recognised before their one-character prefixes.
pub open spec fn split_comparator_text(op: Seq<char>) -> Result<(Cmp, Seq<char>), QueryErrorSpec> {
    if op.len() >= 2 && op[0] == '>' && op[1] == '=' {
        Ok((Cmp::Ge, op.skip(2)))
    } else if op.len() >= 2 && op[0] == '<' && op[1] == '=' {
        Ok((Cmp::Le, op.skip(2)))
    } else if op.len() >= 1 && op[0] == '>' {
        Ok((Cmp::Gt, op.skip(1)))
    } else if op.len() >= 1 && op[0] == '<' {
        Ok((Cmp::Lt, op.skip(1)))
    } else {
        Err(QueryErrorSpec::MissingComparator(op))
    }
}

fn split_comparator(op: &Vec<char>) -> (r: Result<(Cmp, Vec<char>), QueryError>)
    ensures
        match (r, split_comparator_text(op@)) {
            (Ok((c, rest)), Ok((c2, rest2))) => c == c2 && rest@ == rest2,
            (Err(e), Err(e2)) => e@ == e2,
            _ => false,
        },
{
    let n = op.len();
    if n >= 2 && op[0] == '>' && op[1] == '=' {
        Ok((Cmp::Ge, sub_chars(op, 2, n)))
    } else if n >= 2 && op[0] == '<' && op[1] == '=' {
        Ok((Cmp::Le, sub_chars(op, 2, n)))
    } else if n >= 1 && op[0] == '>' {
        Ok((Cmp::Gt, sub_chars(op, 1, n)))
    } else if n >= 1 && op[0] == '<' {
        Ok((Cmp::Lt, sub_chars(op, 1, n)))
    } else {
        Err(QueryError::MissingComparator(string_from_chars(op)))
    }
}

pub open spec fn sat_add_i64(a: int, b: int) -> int {
    clamp_i64(a + b) as int
}

/// The span a date text denotes: `YYYY-MM-DD` covers one day and `YYYY-MM`
/// one month; the result is the first instant of the span and the first
/// instant after it, in UTC milliseconds.
pub open spec fn date_span_of(d: Seq<char>) -> Result<(i64, i64), QueryErrorSpec> {
    let parts = split_on(d, '-');
    let has_day = parts.len() == 3;
    if parts.len() != 2 && parts.len() != 3 {
        Err(QueryErrorSpec::MalformedDate(d))
    } else {
        let y = parse_i64_text(parts[0]);
        let m = parse_i64_text(parts[1]);
        let dd = if has_day {
            parse_i64_text(parts[2])
        } else {
            Some(1int)
        };
        if y.is_none() || m.is_none() || dd.is_none() {
            Err(QueryErrorSpec::MalformedDate(d))
        } else {
            let (year, month, day) = (y.unwrap(), m.unwrap(), dd.unwrap());
            if !(1 <= month <= 12) {
                Err(QueryErrorSpec::MonthOutOfRange(d))
            } else if has_day && !(1 <= day <= month_length(year, month)) {
                Err(QueryErrorSpec::DayOutOfRange(d, month_length(year, month) as u32))
            } else {
                let start = date_ms(year, month, day);
                let next = if has_day {
                    sat_add_i64(start as int, MS_PER_DAY as int) as i64
                } else if month == 12 {
                    date_ms(sat_add_i64(year, 1), 1, 1)
                } else {
                    date_ms(year, month + 1, 1)
                };
                Ok((start, next))
            }
        }
    }
}

/// `i64::saturating_add`.
pub fn saturating_add_i64(a: i64, b: i64) -> (r: i64)
    ensures
        r == clamp_i64(a + b),
{
    let s = a as i128 + b as i128;
    if s > i64::MAX as i128 {
        i64::MAX
    } else if s < i64::MIN as i128 {
        i64::MIN
    } else {
        s as i64
    }
}

fn date_span_chars(date: &Vec<char>) -> (r: Result<(i64, i64), QueryError>)
    ensures
        match (r, date_span_of(date@)) {
            (Ok(b), Ok(b2)) => b == b2,
            (Err(e), Err(e2)) => e@ == e2,
            _ => false,
        },
{
    let parts = split_chars(date, '-');
    proof {
        assert(views(parts@).len() == parts@.len());
    }
    if parts.len() != 2 && parts.len() != 3 {
        return Err(QueryError::MalformedDate(string_from_chars(date)));
    }
    let has_day = parts.len() == 3;
    assert(views(parts@)[0] == parts@[0]@);
    assert(views(parts@)[1] == parts@[1]@);
    let y = parse_i64(&parts[0]);
    let m = parse_i64(&parts[1]);
    let dd = if has_day {
        assert(views(parts@)[2] == parts@[2]@);
        parse_i64(&parts[2])
    } else {
        Some(1i64)
    };
    let (year, month, day) = match (y, m, dd) {
        (Some(a), Some(b), Some(c)) => (a, b, c),
        _ => return Err(QueryError::MalformedDate(string_from_chars(date))),
    };
    if !(1 <= month && month <= 12) {
        return Err(QueryError::MonthOutOfRange(string_from_chars(date)));
    }
    let dim = days_in_month(year, month as u32);
    if has_day && !(1 <= day && day <= dim as i64) {
        return Err(QueryError::DayOutOfRange(string_from_chars(date), dim));
    }
    let start_ms = date_to_ms(year, month as u32, day as u32);
    let next_ms = if has_day {
        saturating_add_i64(start_ms, MS_PER_DAY)
    } else {
        if month == 12 {
            date_to_ms(saturating_add_i64(year, 1), 1, 1)
        } else {
            date_to_ms(year, month as u32 + 1, 1)
        }
    };
    Ok((start_ms, next_ms))
}

/// The bound an `mtime:` operand denotes: its comparator and the span of its
/// date (see [`date_span_of`]).
pub open spec fn date_bound_of(op: Seq<char>) -> Result<DateBound, QueryErrorSpec> {
    match split_comparator_text(op) {
        Err(e) => Err(e),
        Ok((c, d)) => match date_span_of(d) {
            Err(e) => Err(e),
            Ok((start, next)) => Ok(DateBound { cmp: c, start_ms: start, next_ms: next }),
        },
    }
}

fn date_bound_chars(op: &Vec<char>) -> (r: Result<DateBound, QueryError>)
    ensures
        match (r, date_bound_of(op@)) {
            (Ok(b), Ok(b2)) => b == b2,
            (Err(e), Err(e2)) => e@ == e2,
            _ => false,
        },
{
    let (c, date) = match split_comparator(op) {
        Ok(p) => p,
        Err(e) => return Err(e),
    };
    match date_span_chars(&date) {
        Ok((start_ms, next_ms)) => Ok(DateBound { cmp: c, start_ms, next_ms }),
        Err(e) => Err(e),
    }
}

/// Parses an `mtime:` operand such as `>2026-01-01` or `<=2026-07`.
pub fn parse_date_bound(operand: &str) -> (r: Result<DateBound, QueryError>)
    ensures
        match (r, date_bound_of(operand@)) {
            (Ok(b), Ok(b2)) => b == b2,
            (Err(e), Err(e2)) => e@ == e2,
            _ => false,
        },
{
    let op = chars_of(operand);
    date_bound_chars(&op)
}


// ---------------------------------------------------------------------------
// Sizes
// ---------------------------------------------------------------------------

pub open spec fn is_number_char(c: char) -> bool {
    is_ascii_digit(c) || c == '.'
}

/// Length of the leading run of digits and dots.
pub open spec fn number_prefix_from(t: Seq<char>, i: int) -> int
    decreases t.len() - i,
{
    if i >= t.len() {
        t.len() as int
    } else if !is_number_char(t[i]) {
        i
    } else {
        number_prefix_from(t, i + 1)
    }
}

proof fn lemma_number_prefix(t: Seq<char>, j: int, i: int)
    requires
        0 <= j <= i <= t.len(),
        forall|k: int| j <= k < i ==> is_number_char(#[trigger] t[k]),
        i == t.len() || !is_number_char(t[i]),
    ensures
        number_prefix_from(t, j) == i,
    decreases i - j,
{
    if j < i {
        lemma_number_prefix(t, j + 1, i);
    }
}

/// A decimal number as `f64`'s parser reads a string of digits and dots:
/// digits, optionally a dot and more digits, with at least one digit in all.
/// The result is the integer digits and the fraction digits.
pub open spec fn decimal_of(num: Seq<char>) -> Option<(Seq<char>, Seq<char>)> {
    let p = index_of(num, '.');
    let ip = num.take(p);
    let fp = if p < num.len() {
        num.skip(p + 1)
    } else {
        Seq::<char>::empty()
    };
    if all_digits(ip) && all_digits(fp) && ip.len() + fp.len() > 0 {
        Some((ip, fp))
    } else {
        None
    }
}

/// Bytes per unit: none or `b`, `k`/`kb`, `m`/`mb`, `g`/`gb`.
pub open spec fn unit_multiplier(u: Seq<char>) -> Option<nat> {
    if u == Seq::<char>::empty() || u == seq!['b'] {
        Some(1)
    } else if u == seq!['k'] || u == seq!['k', 'b'] {
        Some(1024)
    } else if u == seq!['m'] || u == seq!['m', 'b'] {
        Some(1048576)
    } else if u == seq!['g'] || u == seq!['g', 'b'] {
        Some(1073741824)
    } else {
        None
    }
}

/// `ip.fp × mult`, rounded to the nearest integer with halves rounded up.
pub open spec fn scaled_round(ip: Seq<char>, fp: Seq<char>, mult: nat) -> int {
    let p = pow10(fp.len()) as int;
    (2 * ((digits_value(ip) * p + digits_value(fp)) * mult) + p) / (2 * p)
}

/// The number of bytes a size text (after the comparator) denotes, saturated
/// at `u64::MAX`.
pub open spec fn size_bytes_of(rest: Seq<char>) -> Result<u64, QueryErrorSpec> {
    let t = trim(rest);
    if t.len() == 0 {
        Err(QueryErrorSpec::MissingSize)
    } else {
        let k = number_prefix_from(t, 0);
        match decimal_of(t.take(k)) {
            None => Err(QueryErrorSpec::MalformedSizeNumber(t)),
            Some((ip, fp)) => {
                let u = ascii_lower(trim(t.skip(k)));
                match unit_multiplier(u) {
                    None => Err(QueryErrorSpec::UnknownSizeUnit(u)),
                    Some(mult) => Ok(clamp_u64(scaled_round(ip, fp, mult))),
                }
            },
        }
    }
}

/// The bound a `size:` operand denotes.
pub open spec fn size_bound_of(op: Seq<char>) -> Result<SizeBound, QueryErrorSpec> {
    match split_comparator_text(op) {
        Err(e) => Err(e),
        Ok((c, rest)) => match size_bytes_of(rest) {
            Err(e) => Err(e),
            Ok(b) => Ok(SizeBound { cmp: c, bytes: b }),
        },
    }
}

/// One step of the right-to-left rounding carry:
/// `⌊m·(d·10^n + r)/10^(n+1)⌋ = ⌊(m·d + ⌊m·r/10^n⌋)/10⌋`.
proof fn lemma_carry_step(m: int, d: int, r: int, n: nat)
    requires
        m >= 0,
        0 <= d,
        0 <= r,
    ensures
        (m * (d * pow10(n) + r)) / (pow10(n + 1) as int) == (m * d + (m * r) / (pow10(n) as int)) / 10,
{
    lemma_pow10_positive(n);
    let p = pow10(n) as int;
    assert(pow10(n + 1) == 10 * p);
    let x = m * (d * p + r);
    assert(x == m * r + (m * d) * p) by (nonlinear_arith)
        requires
            x == m * (d * p + r),
    ;
    assert(x >= 0) by (nonlinear_arith)
        requires
            m >= 0,
            d >= 0,
            r >= 0,
            p >= 1,
            x == m * (d * p + r),
    ;
    lemma_div_denominator(x, p, 10);
    lemma_hoist_over_denominator(m * r, m * d, p as nat);
    assert(p * 10 == 10 * p);
}

/// `⌊(2·(I·P + F)·m + P) / 2P⌋ = I·m + ⌊(⌊2·F·m/P⌋ + 1)/2⌋`.
proof fn lemma_round_split(i: int, f: int, m: int, p: int)
    requires
        i >= 0,
        f >= 0,
        m >= 0,
        p >= 1,
    ensures
        (2 * ((i * p + f) * m) + p) / (2 * p) == i * m + ((2 * f * m) / p + 1) / 2,
{
    let x = 2 * f * m + p;
    assert(2 * ((i * p + f) * m) + p == x + (i * m) * (2 * p)) by (nonlinear_arith)
        requires
            x == 2 * f * m + p,
    ;
    lemma_hoist_over_denominator(x, i * m, (2 * p) as nat);
    assert(x >= 0) by (nonlinear_arith)
        requires
            f >= 0,
            m >= 0,
            p >= 1,
            x == 2 * f * m + p,
    ;
    lemma_div_denominator(x, p, 2);
    assert(p * 2 == 2 * p);
    lemma_hoist_over_denominator(2 * f * m, 1, p as nat);
}

/// `⌊2·m·F / 10^k⌋` for the fraction digits, computed from the right so that
/// every intermediate stays below `2·m`.
fn fraction_carry(fp: &Vec<char>, m2: u64) -> (c: u64)
    requires
        all_digits(fp@),
        m2 <= 0x8000_0000,
    ensures
        c == (m2 * digits_value(fp@)) / (pow10(fp@.len()) as int),
        c <= m2,
{
    let mut c: u64 = 0;
    let mut j: usize = fp.len();
    proof {
        lemma_pow10_positive(0);
        assert(fp@.skip(fp.len() as int).len() == 0);
        assert(digits_value(fp@.skip(fp.len() as int)) == 0);
        assert(pow10(0) == 1);
        assert(m2 * 0 == 0);
    }
    while j > 0
        invariant
            j <= fp.len(),
            all_digits(fp@),
            m2 <= 0x8000_0000,
            c == (m2 * digits_value(fp@.skip(j as int))) / (pow10((fp.len() - j) as nat) as int),
            c <= m2,
        decreases j,
    {
        j -= 1;
        let ghost tail = fp@.skip(j as int);
        proof {
            assert(all_digits(tail)) by {
                assert forall|k: int| 0 <= k < tail.len() implies is_ascii_digit(#[trigger] tail[k]) by {
                    assert(tail[k] == fp@[j + k]);
                }
            }
            lemma_digits_value_first(tail);
            assert(tail.skip(1) == fp@.skip(j + 1));
            assert(tail[0] == fp@[j as int]);
            assert(is_ascii_digit(fp@[j as int]));
            lemma_carry_step(
                m2 as int,
                digit_value(fp@[j as int]),
                digits_value(fp@.skip(j + 1)) as int,
                (fp.len() - j - 1) as nat,
            );
            assert((fp.len() - j - 1) as nat + 1 == (fp.len() - j) as nat);
        }
        let d = (fp[j] as u32 - '0' as u32) as u64;
        assert(d == digit_value(fp@[j as int]));
        assert(m2 * d <= 9 * m2) by (nonlinear_arith)
            requires
                d <= 9,
        ;
        let prev = c;
        c = (m2 * d + prev) / 10;
        assert(c <= m2) by (nonlinear_arith)
            requires
                prev <= m2,
                m2 * d <= 9 * m2,
                c == (m2 * d + prev) / 10,
        ;
    }
    assert(fp@.skip(0) == fp@);
    c
}


fn size_bytes_chars(rest: &Vec<char>) -> (r: Result<u64, QueryError>)
    ensures
        match (r, size_bytes_of(rest@)) {
            (Ok(b), Ok(b2)) => b == b2,
            (Err(e), Err(e2)) => e@ == e2,
            _ => false,
        },
{
    let t = trim_chars(rest);
    if t.len() == 0 {
        return Err(QueryError::MissingSize);
    }
    let mut k: usize = 0;
    while k < t.len() && (('0' <= t[k] && t[k] <= '9') || t[k] == '.')
        invariant
            k <= t.len(),
            forall|i: int| 0 <= i < k ==> is_number_char(#[trigger] t@[i]),
        decreases t.len() - k,
    {
        k += 1;
    }
    proof {
        lemma_number_prefix(t@, 0, k as int);
    }
    let num = sub_chars(&t, 0, k);
    assert(num@ == t@.take(k as int));
    let p = find_char(&num, '.');
    let ip = sub_chars(&num, 0, p);
    let fp = if p < num.len() {
        sub_chars(&num, p + 1, num.len())
    } else {
        Vec::new()
    };
    assert(ip@ == num@.take(p as int));
    assert(p < num.len() ==> fp@ == num@.skip(p + 1));
    assert(p >= num.len() ==> fp@ == Seq::<char>::empty());
    if !(all_digits_vec(&ip) && all_digits_vec(&fp) && ip.len() + fp.len() > 0) {
        return Err(QueryError::MalformedSizeNumber(string_from_chars(&t)));
    }
    let unit_raw = sub_chars(&t, k, t.len());
    assert(unit_raw@ == t@.skip(k as int));
    let trimmed_unit = trim_chars(&unit_raw);
    let u = to_ascii_lower(&trimmed_unit);
    assert(u.len() == 0 ==> u@ =~= Seq::<char>::empty());
    let mult: u64 = if u.len() == 0 || chars_are1(&u, 'b') {
        1
    } else if chars_are1(&u, 'k') || chars_are2(&u, 'k', 'b') {
        1024
    } else if chars_are1(&u, 'm') || chars_are2(&u, 'm', 'b') {
        1048576
    } else if chars_are1(&u, 'g') || chars_are2(&u, 'g', 'b') {
        1073741824
    } else {
        return Err(QueryError::UnknownSizeUnit(string_from_chars(&u)));
    };
    proof {
        assert(unit_multiplier(u@) == Some(mult as nat));
        lemma_pow10_positive(fp@.len());
        lemma_digits_value_bound(fp@);
        lemma_round_split(
            digits_value(ip@) as int,
            digits_value(fp@) as int,
            mult as int,
            pow10(fp@.len()) as int,
        );
        assert(2 * digits_value(fp@) * mult == (2 * mult) * digits_value(fp@)) by (nonlinear_arith);
        assert(ip@.skip(0) == ip@);
    }
    let limit: u128 = 18446744073709551615;
    match read_digits(&ip, 0, limit) {
        None => {
            proof {
                let iv = digits_value(ip@) as int;
                let fr = ((2 * digits_value(fp@) * mult) / (pow10(fp@.len()) as int) + 1) / 2;
                assert(fr >= 0) by (nonlinear_arith)
                    requires
                        fr == ((2 * digits_value(fp@) * mult) / (pow10(fp@.len()) as int) + 1) / 2,
                        pow10(fp@.len()) >= 1,
                ;
                assert(iv * mult >= iv) by (nonlinear_arith)
                    requires
                        mult >= 1,
                        iv >= 0,
                ;
            }
            Ok(u64::MAX)
        },
        Some(iv) => {
            let c = fraction_carry(&fp, 2 * mult);
            let fr = (c + 1) / 2;
            assert(iv * (mult as u128) <= 18446744073709551615 * 1073741824) by (nonlinear_arith)
                requires
                    iv <= 18446744073709551615,
                    mult <= 1073741824,
            ;
            let total: u128 = iv * (mult as u128) + fr as u128;
            if total > 18446744073709551615 {
                Ok(u64::MAX)
            } else {
                Ok(total as u64)
            }
        },
    }
}

fn size_bound_chars(op: &Vec<char>) -> (r: Result<SizeBound, QueryError>)
    ensures
        match (r, size_bound_of(op@)) {
            (Ok(b), Ok(b2)) => b == b2,
            (Err(e), Err(e2)) => e@ == e2,
            _ => false,
        },
{
    let (c, rest) = match split_comparator(op) {
        Ok(p) => p,
        Err(e) => return Err(e),
    };
    match size_bytes_chars(&rest) {
        Ok(bytes) => Ok(SizeBound { cmp: c, bytes }),
        Err(e) => Err(e),
    }
}

/// Parses a `size:` operand such as `>10mb`, `<500KB` or `>=1.5gb`.
pub fn parse_size_bound(operand: &str) -> (r: Result<SizeBound, QueryError>)
    ensures
        match (r, size_bound_of(operand@)) {
            (Ok(b), Ok(b2)) => b == b2,
            (Err(e), Err(e2)) => e@ == e2,
            _ => false,
        },
{
    let op = chars_of(operand);
    size_bound_chars(&op)
}


// ---------------------------------------------------------------------------
// Tokens
// ---------------------------------------------------------------------------

/// The tokenizer's state after reading a prefix of the query.
pub struct TokState {
    pub out: Seq<Seq<char>>,
    pub cur: Seq<char>,
    pub in_quote: bool,
    pub has: bool,
}

/// Reading one character: a double quote toggles quoting and is kept in the
/// token; white space outside quotes ends the current token (if any); any
/// other character extends it.
pub open spec fn tok_step(st: TokState, ch: char) -> TokState {
    if ch == '"' {
        TokState { out: st.out, cur: st.cur.push(ch), in_quote: !st.in_quote, has: true }
    } else if is_white_space(ch) && !st.in_quote {
        if st.has {
            TokState { out: st.out.push(st.cur), cur: Seq::empty(), in_quote: st.in_quote, has: false }
        } else {
            st
        }
    } else {
        TokState { out: st.out, cur: st.cur.push(ch), in_quote: st.in_quote, has: true }
    }
}

pub open spec fn tok_state(s: Seq<char>, n: int) -> TokState
    decreases n,
{
    if n <= 0 {
        TokState { out: Seq::empty(), cur: Seq::empty(), in_quote: false, has: false }
    } else {
        tok_step(tok_state(s, n - 1), s[n - 1])
    }
}

/// The top-level tokens of a query: white-space separated, except that
/// white space between double quotes stays inside the token; quotes are kept.
pub open spec fn tokenize_text(s: Seq<char>) -> Seq<Seq<char>> {
    let st = tok_state(s, s.len() as int);
    if st.has {
        st.out.push(st.cur)
    } else {
        st.out
    }
}

fn tokenize(q: &Vec<char>) -> (toks: Vec<Vec<char>>)
    ensures
        views(toks@) == tokenize_text(q@),
{
    let mut out: Vec<Vec<char>> = Vec::new();
    let mut cur: Vec<char> = Vec::new();
    let mut in_quote = false;
    let mut has = false;
    let mut i: usize = 0;
    assert(views(out@) =~= Seq::<Seq<char>>::empty());
    assert(cur@ =~= Seq::<char>::empty());
    while i < q.len()
        invariant
            i <= q.len(),
            tok_state(q@, i as int) == (TokState {
                out: views(out@),
                cur: cur@,
                in_quote,
                has,
            }),
        decreases q.len() - i,
    {
        let ch = q[i];
        if ch == '"' {
            in_quote = !in_quote;
            cur.push(ch);
            has = true;
        } else if char_is_white_space(ch) && !in_quote {
            if has {
                let ghost prev = out@;
                let done = cur;
                out.push(done);
                cur = Vec::new();
                assert(views(out@) =~= views(prev).push(done@));
                assert(cur@ =~= Seq::<char>::empty());
                has = false;
            }
        } else {
            cur.push(ch);
            has = true;
        }
        i += 1;
    }
    if has {
        let ghost prev = out@;
        let done = cur;
        out.push(done);
        assert(views(out@) =~= views(prev).push(done@));
    }
    out
}

pub open spec fn is_or_token(t: Seq<char>) -> bool {
    t == seq!['O', 'R']
}

pub open spec fn is_not_token(t: Seq<char>) -> bool {
    t == seq!['N', 'O', 'T']
}

pub open spec fn all_alpha(s: Seq<char>) -> bool {
    forall|i: int| 0 <= i < s.len() ==> is_ascii_alpha(#[trigger] s[i])
}

/// `field:rest` with a non-empty, purely ASCII-alphabetic field name before
/// the first colon; the field name is lower-cased.
pub open spec fn split_field_text(t: Seq<char>) -> Option<(Seq<char>, Seq<char>)> {
    let i = index_of(t, ':');
    if i >= t.len() {
        None
    } else {
        let f = t.take(i);
        if f.len() == 0 || !all_alpha(f) {
            None
        } else {
            Some((ascii_lower(f), t.skip(i + 1)))
        }
    }
}

fn split_field(t: &Vec<char>) -> (r: Option<(Vec<char>, Vec<char>)>)
    ensures
        match (r, split_field_text(t@)) {
            (Some((f, rest)), Some((f2, rest2))) => f@ == f2 && rest@ == rest2,
            (None, None) => true,
            _ => false,
        },
{
    let i = find_char(t, ':');
    if i >= t.len() {
        return None;
    }
    if i == 0 {
        return None;
    }
    let mut k: usize = 0;
    while k < i
        invariant
            k <= i < t.len(),
            i == index_of(t@, ':'),
            forall|j: int| 0 <= j < k ==> is_ascii_alpha(#[trigger] t@[j]),
        decreases i - k,
    {
        let c = t[k];
        if !(('a' <= c && c <= 'z') || ('A' <= c && c <= 'Z')) {
            assert(!all_alpha(t@.take(i as int))) by {
                assert(t@.take(i as int)[k as int] == c);
            }
            return None;
        }
        k += 1;
    }
    let f = sub_chars(t, 0, i);
    assert(all_alpha(f@)) by {
        assert forall|j: int| 0 <= j < f@.len() implies is_ascii_alpha(#[trigger] f@[j]) by {
            assert(f@[j] == t@[j]);
        }
    }
    let rest = sub_chars(t, i + 1, t.len());
    assert(f@ == t@.take(i as int));
    assert(rest@ == t@.skip(i + 1));
    Some((to_ascii_lower(&f), rest))
}

pub open spec fn is_filter_field(f: Seq<char>) -> bool {
    f == seq!['p', 'a', 't', 'h'] || f == seq!['m', 't', 'i', 'm', 'e'] || f == seq!['s', 'i', 'z', 'e']
}

/// Whether a token is an operator: upper-case `OR` or `NOT`, a leading `-`
/// followed by something, or a `path:`, `mtime:` or `size:` prefix (field
/// names compared case-insensitively). Lower-case `or`/`not` are plain words.
pub open spec fn is_operator_text(t: Seq<char>) -> bool {
    is_or_token(t) || is_not_token(t) || (t.len() > 1 && t[0] == '-') || match split_field_text(
        t,
    ) {
        Some((f, _)) => is_filter_field(f),
        None => false,
    }
}

fn is_field(f: &Vec<char>, a: char, b: char, c: char, d: char) -> (r: bool)
    ensures
        r == (f@ == seq![a, b, c, d]),
{
    if f.len() == 4 && f[0] == a && f[1] == b && f[2] == c && f[3] == d {
        assert(f@ =~= seq![a, b, c, d]);
        true
    } else {
        false
    }
}

fn is_field5(f: &Vec<char>, a: char, b: char, c: char, d: char, e: char) -> (r: bool)
    ensures
        r == (f@ == seq![a, b, c, d, e]),
{
    if f.len() == 5 && f[0] == a && f[1] == b && f[2] == c && f[3] == d && f[4] == e {
        assert(f@ =~= seq![a, b, c, d, e]);
        true
    } else {
        false
    }
}

fn is_operator_token(t: &Vec<char>) -> (r: bool)
    ensures
        r == is_operator_text(t@),
{
    if chars_are2(t, 'O', 'R') || chars_are3(t, 'N', 'O', 'T') {
        return true;
    }
    if t.len() > 1 && t[0] == '-' {
        return true;
    }
    match split_field(t) {
        Some((f, _)) => is_field(&f, 'p', 'a', 't', 'h') || is_field5(&f, 'm', 't', 'i', 'm', 'e')
            || is_field(&f, 's', 'i', 'z', 'e'),
        None => false,
    }
}

/// A double-quoted operand loses its quotes and is marked as a phrase.
pub open spec fn unquote_text(s: Seq<char>) -> (Seq<char>, bool) {
    if s.len() >= 2 && s[0] == '"' && s.last() == '"' {
        (s.subrange(1, s.len() - 1), true)
    } else {
        (s, false)
    }
}

fn unquote(s: &Vec<char>) -> (r: (Vec<char>, bool))
    ensures
        (r.0@, r.1) == unquote_text(s@),
{
    if s.len() >= 2 && s[0] == '"' && s[s.len() - 1] == '"' {
        (sub_chars(s, 1, s.len() - 1), true)
    } else {
        (sub_chars(s, 0, s.len()), false)
    }
}


// ---------------------------------------------------------------------------
// Groups
// ---------------------------------------------------------------------------

pub open spec fn with_content(g: GroupSpec, t: Seq<char>) -> GroupSpec {
    GroupSpec { content: g.content.push(t), excluded: g.excluded, paths: g.paths, mtimes: g.mtimes, sizes: g.sizes }
}

pub open spec fn with_excluded(g: GroupSpec, t: Seq<char>) -> GroupSpec {
    GroupSpec { content: g.content, excluded: g.excluded.push(t), paths: g.paths, mtimes: g.mtimes, sizes: g.sizes }
}

pub open spec fn with_path(g: GroupSpec, p: (Seq<char>, bool)) -> GroupSpec {
    GroupSpec { content: g.content, excluded: g.excluded, paths: g.paths.push(p), mtimes: g.mtimes, sizes: g.sizes }
}

pub open spec fn with_mtime(g: GroupSpec, b: DateBound) -> GroupSpec {
    GroupSpec { content: g.content, excluded: g.excluded, paths: g.paths, mtimes: g.mtimes.push(b), sizes: g.sizes }
}

pub open spec fn with_size(g: GroupSpec, b: SizeBound) -> GroupSpec {
    GroupSpec { content: g.content, excluded: g.excluded, paths: g.paths, mtimes: g.mtimes, sizes: g.sizes.push(b) }
}

/// Sorting the tokens of one group, from position `i` on, into `g`:
/// `NOT` takes the next token as an excluded word; `-word` is an excluded
/// word; `path:`/`mtime:`/`size:` are filters; everything else (including
/// unknown fields such as `ext:md`) is a content word kept as written.
pub open spec fn classify_from(toks: Seq<Seq<char>>, i: int, g: GroupSpec) -> Result<GroupSpec, QueryErrorSpec>
    decreases toks.len() - i,
{
    if i < 0 || i >= toks.len() {
        Ok(g)
    } else {
        let t = toks[i];
        if is_not_token(t) {
            if i + 1 < toks.len() {
                classify_from(toks, i + 2, with_excluded(g, toks[i + 1]))
            } else {
                Err(QueryErrorSpec::MissingExcludedTerm)
            }
        } else if t.len() > 1 && t[0] == '-' {
            classify_from(toks, i + 1, with_excluded(g, t.skip(1)))
        } else {
            match split_field_text(t) {
                Some((f, rest)) => {
                    if f == seq!['p', 'a', 't', 'h'] {
                        let (operand, phrase) = unquote_text(rest);
                        if trim(operand).len() == 0 {
                            Err(QueryErrorSpec::EmptyPathOperand)
                        } else {
                            classify_from(toks, i + 1, with_path(g, (operand, phrase)))
                        }
                    } else if f == seq!['m', 't', 'i', 'm', 'e'] {
                        match date_bound_of(rest) {
                            Err(e) => Err(e),
                            Ok(b) => classify_from(toks, i + 1, with_mtime(g, b)),
                        }
                    } else if f == seq!['s', 'i', 'z', 'e'] {
                        match size_bound_of(rest) {
                            Err(e) => Err(e),
                            Ok(b) => classify_from(toks, i + 1, with_size(g, b)),
                        }
                    } else {
                        classify_from(toks, i + 1, with_content(g, t))
                    }
                },
                None => classify_from(toks, i + 1, with_content(g, t)),
            }
        }
    }
}

fn new_group() -> (g: Group)
    ensures
        g@ =~= empty_group(),
{
    Group {
        content: Vec::new(),
        excluded: Vec::new(),
        paths: Vec::new(),
        mtimes: Vec::new(),
        sizes: Vec::new(),
    }
}

fn classify_group(tokens: &Vec<Vec<char>>) -> (r: Result<Group, QueryError>)
    ensures
        match (r, classify_from(views(tokens@), 0, empty_group())) {
            (Ok(g), Ok(g2)) => g@ == g2,
            (Err(e), Err(e2)) => e@ == e2,
            _ => false,
        },
{
    let ghost toks = views(tokens@);
    let mut g = new_group();
    let mut i: usize = 0;
    while i < tokens.len()
        invariant
            i <= tokens.len(),
            toks == views(tokens@),
            classify_from(toks, 0, empty_group()) == classify_from(toks, i as int, g@),
        decreases tokens.len() - i,
    {
        let tok = &tokens[i];
        assert(toks[i as int] == tok@);
        let ghost prev = g@;
        if chars_are3(tok, 'N', 'O', 'T') {
            if i + 1 < tokens.len() {
                let next = &tokens[i + 1];
                assert(toks[i + 1] == next@);
                g.excluded.push(string_from_chars(next));
                assert(g@ =~= with_excluded(prev, next@));
                i += 2;
                continue;
            } else {
                return Err(QueryError::MissingExcludedTerm);
            }
        }
        if tok.len() > 1 && tok[0] == '-' {
            let rest = sub_chars(tok, 1, tok.len());
            assert(rest@ == tok@.skip(1));
            g.excluded.push(string_from_chars(&rest));
            assert(g@ =~= with_excluded(prev, rest@));
            i += 1;
            continue;
        }
        match split_field(tok) {
            Some((f, rest)) => {
                if is_field(&f, 'p', 'a', 't', 'h') {
                    let (operand, phrase) = unquote(&rest);
                    let trimmed = trim_chars(&operand);
                    if trimmed.len() == 0 {
                        return Err(QueryError::EmptyPathOperand);
                    }
                    g.paths.push(PathTerm { operand: string_from_chars(&operand), phrase });
                    assert(g@ =~= with_path(prev, (operand@, phrase)));
                    i += 1;
                    continue;
                } else if is_field5(&f, 'm', 't', 'i', 'm', 'e') {
                    match date_bound_chars(&rest) {
                        Ok(b) => {
                            g.mtimes.push(b);
                            assert(g@ =~= with_mtime(prev, b));
                            i += 1;
                            continue;
                        },
                        Err(e) => return Err(e),
                    }
                } else if is_field(&f, 's', 'i', 'z', 'e') {
                    match size_bound_chars(&rest) {
                        Ok(b) => {
                            g.sizes.push(b);
                            assert(g@ =~= with_size(prev, b));
                            i += 1;
                            continue;
                        },
                        Err(e) => return Err(e),
                    }
                }
            },
            None => {},
        }
        g.content.push(string_from_chars(tok));
        assert(g@ =~= with_content(prev, tok@));
        i += 1;
    }
    Ok(g)
}

impl Group {
    /// Whether the group holds no condition at all (an empty stretch between
    /// two `OR`s); such groups are dropped so they cannot widen the result.
    pub fn is_empty(&self) -> (b: bool)
        ensures
            b == group_is_empty(self@),
    {
        self.content.len() == 0 && self.excluded.len() == 0 && self.paths.len() == 0
            && self.mtimes.len() == 0 && self.sizes.len() == 0
    }
}


/// The token groups between upper-case `OR`s (possibly empty ones).
pub open spec fn split_groups(toks: Seq<Seq<char>>) -> Seq<Seq<Seq<char>>>
    decreases toks.len(),
{
    if toks.len() == 0 {
        seq![Seq::<Seq<char>>::empty()]
    } else {
        let r = split_groups(toks.drop_last());
        if is_or_token(toks.last()) {
            r.push(Seq::<Seq<char>>::empty())
        } else {
            r.update(r.len() - 1, r.last().push(toks.last()))
        }
    }
}

proof fn lemma_split_groups_nonempty(toks: Seq<Seq<char>>)
    ensures
        split_groups(toks).len() >= 1,
    decreases toks.len(),
{
    if toks.len() > 0 {
        lemma_split_groups_nonempty(toks.drop_last());
    }
}

/// Classifies the groups from position `j` on, dropping empty ones; at the
/// end, no group at all is an error.
pub open spec fn classify_groups(gts: Seq<Seq<Seq<char>>>, j: int, acc: Seq<GroupSpec>) -> Result<Seq<GroupSpec>, QueryErrorSpec>
    decreases gts.len() - j,
{
    if j < 0 || j >= gts.len() {
        if acc.len() == 0 {
            Err(QueryErrorSpec::NoSearchTerms)
        } else {
            Ok(acc)
        }
    } else {
        match classify_from(gts[j], 0, empty_group()) {
            Err(e) => Err(e),
            Ok(g) => classify_groups(
                gts,
                j + 1,
                if group_is_empty(g) {
                    acc
                } else {
                    acc.push(g)
                },
            ),
        }
    }
}

/// What a query string parses to: without any operator token, nothing is
/// split (`has_operators` false, no groups); otherwise the OR groups with
/// empty ones dropped.
pub open spec fn parse_text(q: Seq<char>) -> Result<(bool, Seq<GroupSpec>), QueryErrorSpec> {
    let toks = tokenize_text(q);
    if !(exists|i: int| 0 <= i < toks.len() && is_operator_text(#[trigger] toks[i])) {
        Ok((false, Seq::empty()))
    } else {
        match classify_groups(split_groups(toks), 0, Seq::empty()) {
            Err(e) => Err(e),
            Ok(gs) => Ok((true, gs)),
        }
    }
}

/// Backward compatibility: a query with no operator in it is never
/// refused and is handed back for plain search untouched (no groups); and
/// a query is only ever parsed into groups when an operator is in it.
pub proof fn lemma_plain_query_passes_through(q: Seq<char>)
    ensures
        !(exists|i: int| 0 <= i < tokenize_text(q).len() && is_operator_text(
            #[trigger] tokenize_text(q)[i],
        )) ==> parse_text(q) == Ok::<(bool, Seq<GroupSpec>), QueryErrorSpec>((false, Seq::empty())),
        parse_text(q) matches Ok((true, _)) ==> exists|i: int|
            0 <= i < tokenize_text(q).len() && is_operator_text(#[trigger] tokenize_text(q)[i]),
{
}

pub open spec fn views2(v: Seq<Vec<Vec<char>>>) -> Seq<Seq<Seq<char>>> {
    v.map_values(|x: Vec<Vec<char>>| views(x@))
}

fn copy_chars(v: &Vec<char>) -> (r: Vec<char>)
    ensures
        r@ == v@,
{
    let r = sub_chars(v, 0, v.len());
    assert(r@ =~= v@);
    r
}

/// Parses the inline operators of a query string.
pub fn parse(query: &str) -> (r: Result<Parsed, QueryError>)
    ensures
        match (r, parse_text(query@)) {
            (Ok(p), Ok((has, gs))) => p.has_operators == has && groups_view(p.groups@) == gs,
            (Err(e), Err(e2)) => e@ == e2,
            _ => false,
        },
{
    let q = chars_of(query);
    let tokens = tokenize(&q);
    let ghost toks = views(tokens@);
    assert(toks == tokenize_text(query@));
    let mut any = false;
    let mut i: usize = 0;
    while i < tokens.len()
        invariant
            i <= tokens.len(),
            toks == views(tokens@),
            !any ==> forall|k: int| 0 <= k < i ==> !is_operator_text(#[trigger] toks[k]),
            any ==> exists|k: int| 0 <= k < toks.len() && is_operator_text(#[trigger] toks[k]),
        decreases tokens.len() - i,
    {
        assert(toks[i as int] == tokens@[i as int]@);
        if is_operator_token(&tokens[i]) {
            any = true;
        }
        i += 1;
    }
    if !any {
        let none: Vec<Group> = Vec::new();
        assert(groups_view(none@) =~= Seq::<GroupSpec>::empty());
        return Ok(Parsed { has_operators: false, groups: none });
    }
    // Split the tokens at upper-case OR.
    let mut gts: Vec<Vec<Vec<char>>> = Vec::new();
    let mut cur: Vec<Vec<char>> = Vec::new();
    let mut j: usize = 0;
    assert(toks.take(0).len() == 0);
    assert(views(cur@) =~= Seq::<Seq<char>>::empty());
    assert(views2(gts@) =~= Seq::<Seq<Seq<char>>>::empty());
    assert(views2(gts@).push(views(cur@)) =~= split_groups(toks.take(0)));
    while j < tokens.len()
        invariant
            j <= tokens.len(),
            toks == views(tokens@),
            toks == tokenize_text(query@),
            exists|m: int| 0 <= m < toks.len() && is_operator_text(#[trigger] toks[m]),
            views2(gts@).push(views(cur@)) == split_groups(toks.take(j as int)),
        decreases tokens.len() - j,
    {
        let tok = &tokens[j];
        proof {
            assert(toks.take(j + 1).drop_last() == toks.take(j as int));
            assert(toks.take(j + 1).last() == tok@);
            lemma_split_groups_nonempty(toks.take(j as int));
        }
        if chars_are2(tok, 'O', 'R') {
            let ghost prev = gts@;
            let done = cur;
            gts.push(done);
            cur = Vec::new();
            assert(views2(gts@) =~= views2(prev).push(views(done@)));
            assert(views(cur@) =~= Seq::<Seq<char>>::empty());
        } else {
            let ghost prev_cur = cur@;
            cur.push(copy_chars(tok));
            assert(views(cur@) =~= views(prev_cur).push(tok@));
            assert(views2(gts@).push(views(cur@)) =~= views2(gts@).push(views(prev_cur)).update(
                views2(gts@).len() as int,
                views(prev_cur).push(tok@),
            ));
        }
        j += 1;
    }
    assert(toks.take(tokens.len() as int) == toks);
    let ghost prev = gts@;
    let last = cur;
    gts.push(last);
    assert(views2(gts@) =~= views2(prev).push(views(last@)));
    let ghost all = views2(gts@);
    // Classify every group and keep the non-empty ones.
    let mut groups: Vec<Group> = Vec::new();
    let mut k: usize = 0;
    assert(groups_view(groups@) =~= Seq::<GroupSpec>::empty());
    while k < gts.len()
        invariant
            k <= gts.len(),
            all == views2(gts@),
            all == split_groups(toks),
            toks == tokenize_text(query@),
            exists|m: int| 0 <= m < toks.len() && is_operator_text(#[trigger] toks[m]),
            classify_groups(all, 0, Seq::empty()) == classify_groups(all, k as int, groups_view(groups@)),
        decreases gts.len() - k,
    {
        assert(all[k as int] == views(gts@[k as int]@));
        match classify_group(&gts[k]) {
            Ok(g) => {
                if !g.is_empty() {
                    let ghost prev = groups@;
                    groups.push(g);
                    assert(groups_view(groups@) =~= groups_view(prev).push(g@));
                }
            },
            Err(e) => return Err(e),
        }
        k += 1;
    }
    if groups.len() == 0 {
        return Err(QueryError::NoSearchTerms);
    }
    Ok(Parsed { has_operators: true, groups })
}

// ---------------------------------------------------------------------------
// Laws of the operators
// ---------------------------------------------------------------------------

/// How each comparator is written.
pub open spec fn comparator_text(c: Cmp) -> Seq<char> {
    match c {
        Cmp::Gt => seq!['>'],
        Cmp::Ge => seq!['>', '='],
        Cmp::Lt => seq!['<'],
        Cmp::Le => seq!['<', '='],
    }
}

/// The comparator read is the one written: an operand made of a written
/// comparator and a text that does not go on with `=` splits into that very
/// comparator and that text; an `mtime:` or `size:` bound carries it, with
/// the span or size of the rest; and an operand that starts with neither
/// `<` nor `>` is refused for want of a comparator.
pub proof fn lemma_comparator_as_written(c: Cmp, d: Seq<char>)
    requires
        d.len() == 0 || d[0] != '=',
    ensures
        split_comparator_text(comparator_text(c) + d) == Ok::<(Cmp, Seq<char>), QueryErrorSpec>((c, d)),
        match date_bound_of(comparator_text(c) + d) {
            Ok(b) => b.cmp == c && date_span_of(d) == Ok::<(i64, i64), QueryErrorSpec>((b.start_ms, b.next_ms)),
            Err(e) => date_span_of(d) == Err::<(i64, i64), QueryErrorSpec>(e),
        },
        match size_bound_of(comparator_text(c) + d) {
            Ok(b) => b.cmp == c && size_bytes_of(d) == Ok::<u64, QueryErrorSpec>(b.bytes),
            Err(e) => size_bytes_of(d) == Err::<u64, QueryErrorSpec>(e),
        },
        (d.len() == 0 || (d[0] != '<' && d[0] != '>')) ==> split_comparator_text(d)
            == Err::<(Cmp, Seq<char>), QueryErrorSpec>(QueryErrorSpec::MissingComparator(d)),
{
    let op = comparator_text(c) + d;
    match c {
        Cmp::Gt => {
            assert(op[0] == '>');
            assert(op.skip(1) =~= d);
        },
        Cmp::Ge => {
            assert(op[0] == '>' && op[1] == '=');
            assert(op.skip(2) =~= d);
        },
        Cmp::Lt => {
            assert(op[0] == '<');
            assert(op.skip(1) =~= d);
        },
        Cmp::Le => {
            assert(op[0] == '<' && op[1] == '=');
            assert(op.skip(2) =~= d);
        },
    }
}

/// The bytes per unit, by the unit's lower-case spelling.
pub open spec fn unit_bytes(lower: Seq<char>) -> Option<nat> {
    if lower == Seq::<char>::empty() || lower == "b"@ {
        Some(1)
    } else if lower == "k"@ || lower == "kb"@ {
        Some(1024)
    } else if lower == "m"@ || lower == "mb"@ {
        Some(1024 * 1024)
    } else if lower == "g"@ || lower == "gb"@ {
        Some(1024 * 1024 * 1024)
    } else {
        None
    }
}

/// Every documented unit, in any case, is accepted with its multiplier: a
/// whole number of such units is that many times 1, 1024, 1024² or 1024³
/// bytes (saturated); the case of the unit makes no difference.
pub proof fn lemma_size_units(ds: Seq<char>, u: Seq<char>)
    requires
        ds.len() > 0,
        all_digits(ds),
        forall|i: int| 0 <= i < u.len() ==> is_ascii_alpha(#[trigger] u[i]),
        unit_bytes(ascii_lower(u)) is Some,
    ensures
        size_bytes_of(ds + u) == Ok::<u64, QueryErrorSpec>(
            clamp_u64((digits_value(ds) * unit_bytes(ascii_lower(u)).unwrap()) as int),
        ),
        size_bytes_of(ds + u) == size_bytes_of(ds + ascii_lower(u)),
{
    reveal_strlit("b");
    reveal_strlit("k");
    reveal_strlit("kb");
    reveal_strlit("m");
    reveal_strlit("mb");
    reveal_strlit("g");
    reveal_strlit("gb");
    assert("b"@ =~= seq!['b']);
    assert("k"@ =~= seq!['k']);
    assert("kb"@ =~= seq!['k', 'b']);
    assert("m"@ =~= seq!['m']);
    assert("mb"@ =~= seq!['m', 'b']);
    assert("g"@ =~= seq!['g']);
    assert("gb"@ =~= seq!['g', 'b']);
    lemma_size_whole_units(ds, u);
    let lu = ascii_lower(u);
    assert(unit_multiplier(lu) == unit_bytes(lu));
    assert forall|i: int| 0 <= i < lu.len() implies is_ascii_alpha(#[trigger] lu[i]) by {
        assert(is_ascii_alpha(u[i]));
    }
    assert(ascii_lower(lu) =~= lu);
    lemma_size_whole_units(ds, lu);
}

proof fn lemma_size_whole_units(ds: Seq<char>, u: Seq<char>)
    requires
        ds.len() > 0,
        all_digits(ds),
        forall|i: int| 0 <= i < u.len() ==> is_ascii_alpha(#[trigger] u[i]),
    ensures
        size_bytes_of(ds + u) == (match unit_multiplier(ascii_lower(u)) {
            None => Err(QueryErrorSpec::UnknownSizeUnit(ascii_lower(u))),
            Some(m) => Ok::<u64, QueryErrorSpec>(clamp_u64((digits_value(ds) * m) as int)),
        }),
{
    let t = ds + u;
    assert(is_ascii_digit(ds[0]));
    assert(t[0] == ds[0]);
    if u.len() > 0 {
        assert(t.last() == u.last());
        assert(is_ascii_alpha(u[u.len() - 1]));
    } else {
        assert(t.last() == ds.last());
        assert(is_ascii_digit(ds[ds.len() - 1]));
    }
    lemma_trim_unchanged(t);
    assert forall|k: int| 0 <= k < ds.len() implies is_number_char(#[trigger] t[k]) by {
        assert(t[k] == ds[k]);
        assert(is_ascii_digit(ds[k]));
    }
    if u.len() > 0 {
        assert(t[ds.len() as int] == u[0]);
        assert(is_ascii_alpha(u[0]));
    }
    lemma_number_prefix(t, 0, ds.len() as int);
    assert(t.take(ds.len() as int) =~= ds);
    assert(t.skip(ds.len() as int) =~= u);
    assert forall|k: int| 0 <= k < ds.len() implies ds[k] != '.' by {
        assert(is_ascii_digit(ds[k]));
    }
    lemma_index_of_from(ds, '.', 0, ds.len() as int);
    assert(ds.take(ds.len() as int) =~= ds);
    assert(all_digits(Seq::<char>::empty()));
    if u.len() > 0 {
        assert(is_ascii_alpha(u[0]) && is_ascii_alpha(u[u.len() - 1]));
    }
    lemma_trim_unchanged(u);
    let v = digits_value(ds) as int;
    assert(digits_value(Seq::<char>::empty()) == 0);
    assert(pow10(0) == 1);
    match unit_multiplier(ascii_lower(u)) {
        None => {},
        Some(m) => {
            assert(scaled_round(ds, Seq::<char>::empty(), m) == v * (m as int)) by {
                let mi: int = m as int;
                assert((2int * ((v * 1int + 0int) * mi) + 1int) / (2int * 1int) == v * mi) by (nonlinear_arith)
                    requires
                        v >= 0,
                        mi >= 0,
                ;
            }
        },
    }
}

/// Field names are case-insensitive: two tokens whose field names differ
/// only in the case of their letters split the same way and are operators
/// alike; the field name comes out without capitals, and the operand is
/// the text after the colon, as written.
pub proof fn lemma_field_names_ignore_case(f1: Seq<char>, f2: Seq<char>, r: Seq<char>)
    requires
        f1.len() > 0,
        all_alpha(f1),
        all_alpha(f2),
        ascii_lower(f1) == ascii_lower(f2),
    ensures
        split_field_text(f1 + seq![':'] + r) == split_field_text(f2 + seq![':'] + r),
        is_operator_text(f1 + seq![':'] + r) == is_operator_text(f2 + seq![':'] + r),
        match split_field_text(f1 + seq![':'] + r) {
            Some((f, rest)) => rest == r && f.len() == f1.len() && forall|i: int|
                0 <= i < f.len() ==> !('A' <= #[trigger] f[i] && f[i] <= 'Z'),
            None => false,
        },
{
    lemma_field_split(f1, r);
    assert(f2.len() == ascii_lower(f2).len());
    lemma_field_split(f2, r);
    let f = ascii_lower(f1);
    assert forall|i: int| 0 <= i < f.len() implies !('A' <= #[trigger] f[i] && f[i] <= 'Z') by {
        assert(f[i] == ascii_lower_char(f1[i]));
        assert(is_ascii_alpha(f1[i]));
    }
}

proof fn lemma_field_split(f: Seq<char>, r: Seq<char>)
    requires
        f.len() > 0,
        all_alpha(f),
    ensures
        split_field_text(f + seq![':'] + r) == Some((ascii_lower(f), r)),
        !is_or_token(f + seq![':'] + r),
        !is_not_token(f + seq![':'] + r),
        (f + seq![':'] + r)[0] != '-',
{
    let t = f + seq![':'] + r;
    assert forall|k: int| 0 <= k < f.len() implies t[k] != ':' by {
        assert(t[k] == f[k]);
        assert(is_ascii_alpha(f[k]));
    }
    assert(t[f.len() as int] == ':');
    lemma_index_of_from(t, ':', 0, f.len() as int);
    assert(t.take(f.len() as int) =~= f);
    assert(t.skip(f.len() as int + 1) =~= r);
    assert(t[0] == f[0]);
    assert(is_ascii_alpha(f[0]));
    if t.len() == 2 {
        assert(t[1] == ':');
    }
    if t.len() == 3 {
        assert(t[f.len() as int] == ':');
    }
}

} // verus!
