//! The shell's log lines: a UTC timestamp computed by hand from the Unix
//! time (the `civil_from_days` algorithm), the component and the message.

use vstd::prelude::*;
use vstd::string::*;
use crate::query::{days_from_civil, is_leap_year, month_length};
use crate::text::{decimal, digit_char, string_from_chars, u64_to_decimal};

verus! {

/// A proleptic Gregorian date with its month and day in range.
pub open spec fn valid_date(y: int, m: int, d: int) -> bool {
    1 <= m <= 12 && 1 <= d <= month_length(y, m)
}

/// The days of `z` that `civil_from_days` takes without overflowing `i64`.
pub open spec fn civil_in_range(z: int) -> bool {
    i64::MIN + 146_097 <= z + 719_468 <= i64::MAX
}

/// The year of the era of day `doe` (0 to 146096) of a 400-year era that
/// starts on a 1 March.
pub open spec fn yoe_of(doe: u32) -> u32 {
    ((doe - doe / 1460 + doe / 36524 - doe / 146_096) / 365) as u32
}

/// The day of that year, counted from 1 March.
pub open spec fn doy_of(doe: u32) -> u32 {
    (doe - (365 * yoe_of(doe) + yoe_of(doe) / 4 - yoe_of(doe) / 100)) as u32
}

/// The month counted from March (0 to 11) of a day of the year.
pub open spec fn mp_of(doy: u32) -> u32 {
    ((5 * doy + 2) / 153) as u32
}

/// The day of the month of a day of the year.
pub open spec fn dom_of(doy: u32) -> u32 {
    (doy - (153 * mp_of(doy) + 2) / 5 + 1) as u32
}

proof fn lemma_era_day(doe: u32)
    requires
        doe <= 146_096,
    ensures
        yoe_of(doe) <= 399,
        365 * yoe_of(doe) + yoe_of(doe) / 4 - yoe_of(doe) / 100 <= doe,
        doy_of(doe) <= 365,
        doy_of(doe) == 365 ==> is_leap_year(yoe_of(doe) + 1),
{
    assert(doe <= 146_096 ==> (((doe - doe / 1460 + doe / 36524 - doe / 146_096) / 365) <= 399
        && 365 * ((doe - doe / 1460 + doe / 36524 - doe / 146_096) / 365) + ((doe - doe / 1460
        + doe / 36524 - doe / 146_096) / 365) / 4 - ((doe - doe / 1460 + doe / 36524 - doe
        / 146_096) / 365) / 100 <= doe && doe - (365 * ((doe - doe / 1460 + doe / 36524 - doe
        / 146_096) / 365) + ((doe - doe / 1460 + doe / 36524 - doe / 146_096) / 365) / 4 - ((doe
        - doe / 1460 + doe / 36524 - doe / 146_096) / 365) / 100) <= 365)) by (bit_vector);
    assert(doe <= 146_096 ==> (doy_of(doe) == 365 ==> (((yoe_of(doe) + 1) % 4 == 0 && (yoe_of(
        doe,
    ) + 1) % 100 != 0) || (yoe_of(doe) + 1) % 400 == 0))) by (bit_vector);
}

proof fn lemma_month_day(doy: u32)
    requires
        doy <= 365,
    ensures
        mp_of(doy) <= 11,
        1 <= dom_of(doy),
        (mp_of(doy) == 0 || mp_of(doy) == 2 || mp_of(doy) == 4 || mp_of(doy) == 5 || mp_of(doy)
            == 7 || mp_of(doy) == 9 || mp_of(doy) == 10) ==> dom_of(doy) <= 31,
        (mp_of(doy) == 1 || mp_of(doy) == 3 || mp_of(doy) == 6 || mp_of(doy) == 8) ==> dom_of(
            doy,
        ) <= 30,
        mp_of(doy) == 11 ==> dom_of(doy) <= 28 || (doy == 365 && dom_of(doy) == 29),
        (153 * mp_of(doy) + 2) / 5 <= doy,
{
    assert(doy <= 365 ==> (mp_of(doy) <= 11 && 1 <= dom_of(doy) && (mp_of(doy) == 0 || mp_of(
        doy,
    ) == 2 || mp_of(doy) == 4 || mp_of(doy) == 5 || mp_of(doy) == 7 || mp_of(doy) == 9 || mp_of(
        doy,
    ) == 10 ==> dom_of(doy) <= 31) && (mp_of(doy) == 1 || mp_of(doy) == 3 || mp_of(doy) == 6
        || mp_of(doy) == 8 ==> dom_of(doy) <= 30) && (mp_of(doy) == 11 ==> dom_of(doy) <= 28 || (
    doy == 365 && dom_of(doy) == 29)) && (153 * mp_of(doy) + 2) / 5 <= doy)) by (bit_vector);
}

/// Days in the month `mp` counted from March (March to February of a leap
/// year).
spec fn march_month_days(mp: u32) -> u32 {
    if mp == 1 || mp == 3 || mp == 6 || mp == 8 {
        30
    } else if mp == 11 {
        29
    } else {
        31
    }
}

proof fn lemma_year_day_decodes(yoe: u32, doy: u32)
    requires
        yoe <= 399,
        doy <= 365,
        doy == 365 ==> (((yoe + 1) % 4 == 0 && (yoe + 1) % 100 != 0) || (yoe + 1) % 400 == 0),
    ensures
        365 * yoe + yoe / 4 - yoe / 100 + doy <= 146_096,
        yoe_of((365 * yoe + yoe / 4 - yoe / 100 + doy) as u32) == yoe,
        doy_of((365 * yoe + yoe / 4 - yoe / 100 + doy) as u32) == doy,
{
    assert(yoe <= 399 && doy <= 365 && (doy == 365 ==> (((yoe + 1) % 4 == 0 && (yoe + 1) % 100
        != 0) || (yoe + 1) % 400 == 0)) ==> ({
        let doe = (365 * yoe + yoe / 4 - yoe / 100 + doy) as u32;
        &&& 365 * yoe + yoe / 4 - yoe / 100 + doy <= 146_096
        &&& ((doe - doe / 1460 + doe / 36524 - doe / 146_096) / 365) as u32 == yoe
        &&& (doe - (365 * yoe + yoe / 4 - yoe / 100)) as u32 == doy
    })) by (bit_vector);
}

proof fn lemma_month_day_decodes(mp: u32, d: u32)
    requires
        mp <= 11,
        1 <= d <= march_month_days(mp),
    ensures
        (153 * mp + 2) / 5 + d - 1 <= 365,
        mp_of(((153 * mp + 2) / 5 + d - 1) as u32) == mp,
        dom_of(((153 * mp + 2) / 5 + d - 1) as u32) == d,
{
    assert(mp <= 11 && 1 <= d && d <= (if mp == 1 || mp == 3 || mp == 6 || mp == 8 {
        30u32
    } else if mp == 11 {
        29u32
    } else {
        31u32
    }) ==> ({
        let doy = ((153 * mp + 2) / 5 + d - 1) as u32;
        &&& (153 * mp + 2) / 5 + d - 1 <= 365
        &&& ((5 * doy + 2) / 153) as u32 == mp
        &&& (doy - (153 * mp + 2) / 5 + 1) as u32 == d
    })) by (bit_vector);
}

/// The March-based year a date falls in (January and February count with
/// the year before).
spec fn march_year(y: int, m: int) -> int {
    if m <= 2 {
        y - 1
    } else {
        y
    }
}

/// The month counted from March.
spec fn march_month(m: int) -> int {
    if m > 2 {
        m - 3
    } else {
        m + 9
    }
}

/// The day of the March-based year.
spec fn march_day(m: int, d: int) -> int {
    (153 * march_month(m) + 2) / 5 + d - 1
}

/// A valid date's day number splits into its 400-year era and the day of the
/// era, from which the year of the era, the day of the year, the month and
/// the day are read back.
proof fn lemma_civil_parts(y: int, m: int, d: int)
    requires
        valid_date(y, m, d),
    ensures
        ({
            let era = march_year(y, m) / 400;
            let yoe = march_year(y, m) - era * 400;
            let doe = days_from_civil(y, m, d) + 719_468 - era * 146_097;
            &&& 0 <= yoe <= 399
            &&& 0 <= doe <= 146_096
            &&& yoe_of(doe as u32) == yoe
            &&& 0 <= march_day(m, d) <= 365
            &&& doy_of(doe as u32) == march_day(m, d)
            &&& mp_of(march_day(m, d) as u32) == march_month(m)
            &&& dom_of(march_day(m, d) as u32) == d
        }),
{
    let yy = march_year(y, m);
    let era = yy / 400;
    let yoe = yy - era * 400;
    assert(0 <= yoe <= 399) by (nonlinear_arith)
        requires
            era == yy / 400,
            yoe == yy - era * 400,
    ;
    let mp = march_month(m);
    assert(d <= march_month_days(mp as u32));
    lemma_month_day_decodes(mp as u32, d as u32);
    let doy = march_day(m, d);
    if doy == 365 {
        assert(m == 2 && d == 29);
        assert(is_leap_year(y));
        assert(is_leap_year(y) == is_leap_year(yoe + 1)) by (nonlinear_arith)
            requires
                y == yoe + 1 + era * 400,
        ;
    }
    lemma_year_day_decodes(yoe as u32, doy as u32);
    assert(days_from_civil(y, m, d) + 719_468 - era * 146_097 == 365 * yoe + yoe / 4 - yoe / 100
        + doy);
}

/// Day numbers name dates one to one: two valid dates with the same day
/// number are the same date. With [`civil_from_days`] finding a date for
/// every day, this makes it the inverse of [`days_from_civil`], and the
/// date in a [`format_utc`] timestamp the only one possible.
pub proof fn lemma_civil_date_unique(y1: int, m1: int, d1: int, y2: int, m2: int, d2: int)
    requires
        valid_date(y1, m1, d1),
        valid_date(y2, m2, d2),
        days_from_civil(y1, m1, d1) == days_from_civil(y2, m2, d2),
    ensures
        y1 == y2,
        m1 == m2,
        d1 == d2,
{
    lemma_civil_parts(y1, m1, d1);
    lemma_civil_parts(y2, m2, d2);
    let e1 = march_year(y1, m1) / 400;
    let e2 = march_year(y2, m2) / 400;
    let o1 = days_from_civil(y1, m1, d1) + 719_468 - e1 * 146_097;
    let o2 = days_from_civil(y2, m2, d2) + 719_468 - e2 * 146_097;
    assert(e1 == e2) by (nonlinear_arith)
        requires
            e1 * 146_097 + o1 == e2 * 146_097 + o2,
            0 <= o1 <= 146_096,
            0 <= o2 <= 146_096,
    ;
    assert(march_month(m1) == march_month(m2));
    assert(march_day(m1, d1) == march_day(m2, d2));
}

/// The civil date (year, month, day) of day `z` since 1970-01-01: the one
/// valid date whose day number [`days_from_civil`] is `z`.
pub fn civil_from_days(z: i64) -> (r: (i64, u32, u32))
    requires
        civil_in_range(z as int),
    ensures
        valid_date(r.0 as int, r.1 as int, r.2 as int),
        days_from_civil(r.0 as int, r.1 as int, r.2 as int) == z,
{
    let zz: i64 = z + 719_468;
    let era: i64 = if zz >= 0 {
        zz / 146_097
    } else {
        -((-zz + 146_096) / 146_097)
    };
    assert(era == zz / 146_097) by (nonlinear_arith)
        requires
            era == (if zz >= 0 {
                zz / 146_097
            } else {
                -((-zz + 146_096) / 146_097)
            }),
    ;
    assert(0 <= zz - era * 146_097 < 146_097 && -100_000_000_000_000 <= era
        <= 100_000_000_000_000) by (nonlinear_arith)
        requires
            era == zz / 146_097,
            i64::MIN + 146_097 <= zz <= i64::MAX,
    ;
    let doe: i64 = zz - era * 146_097;
    let ghost d32 = doe as u32;
    proof {
        lemma_era_day(d32);
    }
    let yoe: i64 = (doe - doe / 1460 + doe / 36524 - doe / 146_096) / 365;
    assert(yoe == yoe_of(d32));
    let y: i64 = yoe + era * 400;
    let doy: i64 = doe - (365 * yoe + yoe / 4 - yoe / 100);
    assert(doy == doy_of(d32));
    let ghost doy32 = doy as u32;
    proof {
        lemma_month_day(doy32);
    }
    let mp: i64 = (5 * doy + 2) / 153;
    assert(mp == mp_of(doy32));
    let d: i64 = doy - (153 * mp + 2) / 5 + 1;
    assert(d == dom_of(doy32));
    let m: i64 = if mp < 10 {
        mp + 3
    } else {
        mp - 9
    };
    let yy: i64 = if m <= 2 {
        y + 1
    } else {
        y
    };
    proof {
        let yp: int = if m <= 2 { yy - 1 } else { yy as int };
        assert(yp == yoe + era * 400);
        assert(yp / 400 == era && yp - (yp / 400) * 400 == yoe) by (nonlinear_arith)
            requires
                yp == yoe + era * 400,
                0 <= yoe <= 399,
        ;
        let lead: int = if m <= 2 { yoe + 1 } else { yoe as int };
        assert(is_leap_year(yy as int) == is_leap_year(lead)) by (nonlinear_arith)
            requires
                yy == lead + era * 400,
        ;
        assert((153 * mp + 2) / 5 + d - 1 == doy);
    }
    (yy, m as u32, d as u32)
}

/// `n`'s decimal digits, left-padded with zeros to `width`.
pub open spec fn padded(n: nat, width: nat) -> Seq<char> {
    let ds = decimal(n);
    if ds.len() >= width {
        ds
    } else {
        Seq::new((width - ds.len()) as nat, |i: int| '0') + ds
    }
}

fn push_padded(out: &mut String, n: u64, width: usize)
    ensures
        final(out)@ == old(out)@ + padded(n as nat, width as nat),
{
    let ds = u64_to_decimal(n);
    let mut v: Vec<char> = Vec::new();
    if ds.len() < width {
        let k = width - ds.len();
        let mut i: usize = 0;
        while i < k
            invariant
                i <= k,
                v@ == Seq::new(i as nat, |j: int| '0'),
            decreases k - i,
        {
            v.push('0');
            i += 1;
            assert(v@ =~= Seq::new(i as nat, |j: int| '0'));
        }
    }
    let mut j: usize = 0;
    let ghost zeros = v@;
    while j < ds.len()
        invariant
            j <= ds@.len(),
            v@ == zeros + ds@.take(j as int),
        decreases ds.len() - j,
    {
        v.push(ds[j]);
        assert(ds@.take(j + 1) =~= ds@.take(j as int).push(ds@[j as int]));
        j += 1;
    }
    assert(ds@.take(ds@.len() as int) =~= ds@);
    assert(v@ =~= padded(n as nat, width as nat));
    let s = string_from_chars(&v);
    out.append(s.as_str());
}

/// The UTC timestamp `YYYY-MM-DD HH:MM:SS UTC` of `secs` seconds after the
/// Unix epoch, from the date of day `secs / 86400`.
pub open spec fn utc_text(secs: nat, y: int, m: int, d: int) -> Seq<char> {
    let rem = secs % 86_400;
    padded(y as nat, 4) + "-"@ + padded(m as nat, 2) + "-"@ + padded(d as nat, 2) + " "@
        + padded(rem / 3600, 2) + ":"@ + padded((rem % 3600) / 60, 2) + ":"@ + padded(
        rem % 60,
        2,
    ) + " UTC"@
}

/// Formats a Unix time in seconds as a UTC timestamp.
pub fn format_utc(secs: u64) -> (s: String)
    ensures
        exists|y: int, m: int, d: int|
            valid_date(y, m, d) && days_from_civil(y, m, d) == secs / 86_400 && s@ == utc_text(
                secs as nat,
                y,
                m,
                d,
            ),
{
    let days = secs / 86_400;
    let rem = secs % 86_400;
    let (year, month, day) = civil_from_days(days as i64);
    assert(year >= 0) by {
        if year < 0 {
            assert(days_from_civil(year as int, month as int, day as int) < 0) by (nonlinear_arith)
                requires
                    year < 0,
                    valid_date(year as int, month as int, day as int),
                    days_from_civil(year as int, month as int, day as int) == days,
            {
            }
        }
    }
    let mut s = String::new();
    push_padded(&mut s, year as u64, 4);
    s.append("-");
    push_padded(&mut s, month as u64, 2);
    s.append("-");
    push_padded(&mut s, day as u64, 2);
    s.append(" ");
    push_padded(&mut s, rem / 3600, 2);
    s.append(":");
    push_padded(&mut s, (rem % 3600) / 60, 2);
    s.append(":");
    push_padded(&mut s, rem % 60, 2);
    s.append(" UTC");
    s
}

/// A log line: `[{timestamp}] [{component}] {message}`.
pub fn log_line_text(timestamp: &str, component: &str, msg: &str) -> (s: String)
    ensures
        s@ == "["@ + timestamp@ + "] ["@ + component@ + "] "@ + msg@,
{
    let mut s = String::from_str("[");
    s.append(timestamp);
    s.append("] [");
    s.append(component);
    s.append("] ");
    s.append(msg);
    s
}

/// The size at which the log file is rotated: 5 MiB.
pub const MAX_LOG_BYTES: u64 = 5 * 1024 * 1024;
/// The log file and the one it is rotated to (one older file is kept).
pub const LOG_FILE_NAME: &'static str = "dowse.log";
pub const ROTATED_LOG_FILE_NAME: &'static str = "dowse.log.1";

/// Whether a log file of `len` bytes is rotated before writing on.
pub fn needs_rotation(len: u64) -> (b: bool)
    ensures
        b == (len >= MAX_LOG_BYTES),
{
    len >= MAX_LOG_BYTES
}

} // verus!
