//! RFC-3339 timestamps, modelled as seconds since the Unix epoch.
//!
//! Document modification times, the `since` watermark and the watermark
//! file all carry timestamps in this form. The parser accepts the full
//! RFC-3339 grammar (fractional seconds are truncated, numeric offsets are
//! applied) for years 1970 through 9999; the formatter emits the canonical
//! `YYYY-MM-DDThh:mm:ssZ` rendering.

use vstd::prelude::*;

verus! {

pub open spec fn is_leap_year(y: int) -> bool {
    (y % 4 == 0 && y % 100 != 0) || y % 400 == 0
}

pub open spec fn days_in_year(y: int) -> int {
    if is_leap_year(y) {
        366
    } else {
        365
    }
}

pub open spec fn days_in_month(y: int, m: int) -> int {
    if m == 2 {
        if is_leap_year(y) {
            29
        } else {
            28
        }
    } else if m == 4 || m == 6 || m == 9 || m == 11 {
        30
    } else {
        31
    }
}

/// Days from 1970-01-01 to the first day of year `y`.
pub open spec fn days_before_year(y: int) -> int
    decreases y,
{
    if y <= 1970 {
        0
    } else {
        days_before_year(y - 1) + days_in_year(y - 1)
    }
}

/// Days from the first of January of `y` to the first day of month `m`.
pub open spec fn days_before_month(y: int, m: int) -> int
    decreases m,
{
    if m <= 1 {
        0
    } else {
        days_before_month(y, m - 1) + days_in_month(y, m - 1)
    }
}

/// Seconds since the epoch of the civil instant `y-m-d h:mi:s` in UTC.
pub open spec fn epoch_seconds(y: int, m: int, d: int, h: int, mi: int, s: int) -> int {
    (days_before_year(y) + days_before_month(y, m) + (d - 1)) * 86400 + h * 3600 + mi * 60 + s
}

/// A civil date-time that lies in the parser's domain.
pub open spec fn civil_ok(y: int, m: int, d: int, h: int, mi: int, s: int) -> bool {
    1970 <= y <= 9999 && 1 <= m <= 12 && 1 <= d <= days_in_month(y, m) && 0 <= h <= 23 && 0 <= mi
        <= 59 && 0 <= s <= 59
}

pub open spec fn is_digit(c: u8) -> bool {
    48 <= c <= 57
}

pub open spec fn digit(c: u8) -> int {
    c - 48
}

pub open spec fn two_digits(s: Seq<u8>, i: int) -> int {
    digit(s[i]) * 10 + digit(s[i + 1])
}

pub open spec fn four_digits(s: Seq<u8>, i: int) -> int {
    digit(s[i]) * 1000 + digit(s[i + 1]) * 100 + digit(s[i + 2]) * 10 + digit(s[i + 3])
}

pub open spec fn all_digits(s: Seq<u8>, from: int, to: int) -> bool {
    forall|j: int| from <= j < to ==> is_digit(#[trigger] s[j])
}

/// The first index at or after `i` that does not hold a digit.
pub open spec fn digit_run_end(s: Seq<u8>, i: int) -> int
    decreases s.len() - i,
{
    if i < 0 || i >= s.len() || !is_digit(s[i]) {
        i
    } else {
        digit_run_end(s, i + 1)
    }
}

/// The date part: `YYYY-MM-DDThh:mm:ss` with in-range fields.
pub open spec fn date_time_ok(s: Seq<u8>) -> bool {
    &&& s.len() >= 19
    &&& all_digits(s, 0, 4)
    &&& s[4] == 45
    &&& all_digits(s, 5, 7)
    &&& s[7] == 45
    &&& all_digits(s, 8, 10)
    &&& (s[10] == 84 || s[10] == 116 || s[10] == 32)
    &&& all_digits(s, 11, 13)
    &&& s[13] == 58
    &&& all_digits(s, 14, 16)
    &&& s[16] == 58
    &&& all_digits(s, 17, 19)
    &&& civil_ok(
        four_digits(s, 0),
        two_digits(s, 5),
        two_digits(s, 8),
        two_digits(s, 11),
        two_digits(s, 14),
        two_digits(s, 17),
    )
}

/// Where the offset part starts: past any `.digits` fraction at 19.
pub open spec fn offset_start(s: Seq<u8>) -> int {
    if s.len() > 19 && s[19] == 46 {
        digit_run_end(s, 20)
    } else {
        19
    }
}

/// A fraction, if present, holds at least one digit.
pub open spec fn fraction_ok(s: Seq<u8>) -> bool {
    s.len() > 19 && s[19] == 46 ==> digit_run_end(s, 20) > 20
}

/// The offset part at `p`: `Z`, `z`, or `±hh:mm` ending the string.
pub open spec fn offset_ok(s: Seq<u8>, p: int) -> bool {
    if p + 1 == s.len() && (s[p] == 90 || s[p] == 122) {
        true
    } else {
        &&& p + 6 == s.len()
        &&& (s[p] == 43 || s[p] == 45)
        &&& all_digits(s, p + 1, p + 3)
        &&& s[p + 3] == 58
        &&& all_digits(s, p + 4, p + 6)
        &&& two_digits(s, p + 1) <= 23
        &&& two_digits(s, p + 4) <= 59
    }
}

/// The offset's value in seconds east of UTC.
pub open spec fn offset_seconds(s: Seq<u8>, p: int) -> int {
    if s[p] == 90 || s[p] == 122 {
        0
    } else if s[p] == 43 {
        two_digits(s, p + 1) * 3600 + two_digits(s, p + 4) * 60
    } else {
        -(two_digits(s, p + 1) * 3600 + two_digits(s, p + 4) * 60)
    }
}

/// Whether `s` is an RFC-3339 timestamp in the parser's domain.
pub open spec fn rfc3339_ok(s: Seq<u8>) -> bool {
    date_time_ok(s) && fraction_ok(s) && offset_ok(s, offset_start(s))
}

/// The instant an RFC-3339 timestamp denotes, as epoch seconds.
pub open spec fn rfc3339_value(s: Seq<u8>) -> int {
    epoch_seconds(
        four_digits(s, 0),
        two_digits(s, 5),
        two_digits(s, 8),
        two_digits(s, 11),
        two_digits(s, 14),
        two_digits(s, 17),
    ) - offset_seconds(s, offset_start(s))
}

/// Every year adds between 365 and 366 days.
pub proof fn lemma_days_before_year_bounds(a: int, b: int)
    requires
        1970 <= a <= b,
    ensures
        365 * (b - a) <= days_before_year(b) - days_before_year(a) <= 366 * (b - a),
    decreases b,
{
    if a < b {
        lemma_days_before_year_bounds(a, b - 1);
    }
}

/// Every month adds between 28 and 31 days.
pub proof fn lemma_days_before_month_bounds(y: int, m: int)
    requires
        1 <= m <= 13,
    ensures
        28 * (m - 1) <= days_before_month(y, m) <= 31 * (m - 1),
    decreases m,
{
    if m > 1 {
        lemma_days_before_month_bounds(y, m - 1);
    }
}

/// The twelve months together make up the year.
pub proof fn lemma_months_sum(y: int)
    ensures
        days_before_month(y, 13) == days_in_year(y),
{
    assert(days_before_month(y, 1) == 0);
    assert(days_before_month(y, 2) == 31);
    assert(days_before_month(y, 3) == 31 + days_in_month(y, 2));
    assert(days_before_month(y, 4) == 62 + days_in_month(y, 2));
    assert(days_before_month(y, 5) == 92 + days_in_month(y, 2));
    assert(days_before_month(y, 6) == 123 + days_in_month(y, 2));
    assert(days_before_month(y, 7) == 153 + days_in_month(y, 2));
    assert(days_before_month(y, 8) == 184 + days_in_month(y, 2));
    assert(days_before_month(y, 9) == 215 + days_in_month(y, 2));
    assert(days_before_month(y, 10) == 245 + days_in_month(y, 2));
    assert(days_before_month(y, 11) == 276 + days_in_month(y, 2));
    assert(days_before_month(y, 12) == 306 + days_in_month(y, 2));
    assert(days_before_month(y, 13) == 337 + days_in_month(y, 2));
}

/// Decimal decomposition of a two-digit number.
pub proof fn lemma_digits2(x: int)
    requires
        0 <= x <= 99,
    ensures
        x == (x / 10) * 10 + x % 10,
        0 <= x / 10 <= 9,
        0 <= x % 10 <= 9,
{
    vstd::arithmetic::div_mod::lemma_fundamental_div_mod(x, 10);
    vstd::arithmetic::div_mod::lemma_mod_division_less_than_divisor(x, 10);
    vstd::arithmetic::div_mod::lemma_div_pos_is_pos(x, 10);
}

/// Decimal decomposition of a four-digit number.
pub proof fn lemma_digits4(x: int)
    requires
        0 <= x <= 9999,
    ensures
        x == (x / 1000) * 1000 + ((x / 100) % 10) * 100 + ((x / 10) % 10) * 10 + x % 10,
        0 <= x / 1000 <= 9,
        0 <= (x / 100) % 10 <= 9,
        0 <= (x / 10) % 10 <= 9,
        0 <= x % 10 <= 9,
{
    vstd::arithmetic::div_mod::lemma_fundamental_div_mod(x, 10);
    vstd::arithmetic::div_mod::lemma_mod_division_less_than_divisor(x, 10);
    vstd::arithmetic::div_mod::lemma_div_pos_is_pos(x, 10);
    let a1 = x / 10;
    vstd::arithmetic::div_mod::lemma_fundamental_div_mod(a1, 10);
    vstd::arithmetic::div_mod::lemma_mod_division_less_than_divisor(a1, 10);
    vstd::arithmetic::div_mod::lemma_div_pos_is_pos(a1, 10);
    vstd::arithmetic::div_mod::lemma_div_denominator(x, 10, 10);
    let a2 = x / 100;
    vstd::arithmetic::div_mod::lemma_fundamental_div_mod(a2, 10);
    vstd::arithmetic::div_mod::lemma_mod_division_less_than_divisor(a2, 10);
    vstd::arithmetic::div_mod::lemma_div_pos_is_pos(a2, 10);
    vstd::arithmetic::div_mod::lemma_div_denominator(x, 100, 10);
}

/// Days in a month, executable.
pub fn days_in_month_x(y: u64, m: u64) -> (r: u64)
    requires
        1 <= m <= 12,
    ensures
        r as int == days_in_month(y as int, m as int),
        28 <= r <= 31,
{
    if m == 2 {
        if (y % 4 == 0 && y % 100 != 0) || y % 400 == 0 {
            29
        } else {
            28
        }
    } else if m == 4 || m == 6 || m == 9 || m == 11 {
        30
    } else {
        31
    }
}

/// Days from the epoch to the first day of year `y`, executable.
pub fn days_before_year_x(y: u64) -> (r: u64)
    requires
        1970 <= y <= 10000,
    ensures
        r as int == days_before_year(y as int),
        r <= 366 * (y - 1970),
{
    let mut i: u64 = 1970;
    let mut acc: u64 = 0;
    while i < y
        invariant
            1970 <= i <= y <= 10000,
            acc as int == days_before_year(i as int),
            acc <= 366 * (i - 1970),
        decreases y - i,
    {
        let leap: bool = (i % 4 == 0 && i % 100 != 0) || i % 400 == 0;
        acc = acc + if leap {
            366
        } else {
            365
        };
        i = i + 1;
    }
    acc
}

/// Days from the first of January to the first day of month `m`, executable.
pub fn days_before_month_x(y: u64, m: u64) -> (r: u64)
    requires
        1 <= m <= 12,
    ensures
        r as int == days_before_month(y as int, m as int),
        r <= 31 * (m - 1),
{
    let mut i: u64 = 1;
    let mut acc: u64 = 0;
    while i < m
        invariant
            1 <= i <= m <= 12,
            acc as int == days_before_month(y as int, i as int),
            acc <= 31 * (i - 1),
        decreases m - i,
    {
        acc = acc + days_in_month_x(y, i);
        i = i + 1;
    }
    acc
}

/// Read two decimal digits at `i`.
fn read2(s: &[u8], i: usize) -> (r: Option<u64>)
    requires
        i + 2 <= s@.len(),
    ensures
        r.is_some() == (is_digit(s@[i as int]) && is_digit(s@[i + 1])),
        r.is_some() ==> r == Some(two_digits(s@, i as int) as u64) && two_digits(s@, i as int)
            <= 99,
{
    let c0 = s[i];
    let c1 = s[i + 1];
    if 48 <= c0 && c0 <= 57 && 48 <= c1 && c1 <= 57 {
        Some(((c0 - 48) as u64) * 10 + ((c1 - 48) as u64))
    } else {
        None
    }
}

/// Read four decimal digits at `i`.
fn read4(s: &[u8], i: usize) -> (r: Option<u64>)
    requires
        i + 4 <= s@.len(),
    ensures
        r.is_some() == all_digits(s@, i as int, i + 4),
        r.is_some() ==> r == Some(four_digits(s@, i as int) as u64) && four_digits(s@, i as int)
            <= 9999,
{
    let c0 = s[i];
    let c1 = s[i + 1];
    let c2 = s[i + 2];
    let c3 = s[i + 3];
    if 48 <= c0 && c0 <= 57 && 48 <= c1 && c1 <= 57 && 48 <= c2 && c2 <= 57 && 48 <= c3 && c3
        <= 57 {
        Some(
            ((c0 - 48) as u64) * 1000 + ((c1 - 48) as u64) * 100 + ((c2 - 48) as u64) * 10 + ((c3
                - 48) as u64),
        )
    } else {
        proof {
            assert(!(is_digit(s@[i as int]) && is_digit(s@[i + 1]) && is_digit(s@[i + 2])
                && is_digit(s@[i + 3])));
        }
        None
    }
}

/// Parse an RFC-3339 timestamp into epoch seconds.
///
/// Fractional seconds are accepted and truncated; a numeric offset is
/// subtracted to yield UTC. Years outside 1970 through 9999 are rejected.
pub fn parse_rfc3339(s: &[u8]) -> (r: Option<i64>)
    ensures
        r.is_some() == rfc3339_ok(s@),
        rfc3339_ok(s@) ==> r == Some(rfc3339_value(s@) as i64) && rfc3339_value(s@)
            == rfc3339_value(s@) as i64 as int,
{
    if s.len() < 19 {
        return None;
    }
    let y = match read4(s, 0) {
        Some(v) => v,
        None => {
            return None;
        },
    };
    if s[4] != 45 || s[7] != 45 || s[13] != 58 || s[16] != 58 {
        return None;
    }
    if !(s[10] == 84 || s[10] == 116 || s[10] == 32) {
        return None;
    }
    let m = match read2(s, 5) {
        Some(v) => v,
        None => {
            return None;
        },
    };
    let d = match read2(s, 8) {
        Some(v) => v,
        None => {
            return None;
        },
    };
    let h = match read2(s, 11) {
        Some(v) => v,
        None => {
            return None;
        },
    };
    let mi = match read2(s, 14) {
        Some(v) => v,
        None => {
            return None;
        },
    };
    let sec = match read2(s, 17) {
        Some(v) => v,
        None => {
            return None;
        },
    };
    if !(1970 <= y && 1 <= m && m <= 12 && h <= 23 && mi <= 59 && sec <= 59) {
        return None;
    }
    if !(1 <= d && d <= days_in_month_x(y, m)) {
        return None;
    }
    // fractional seconds
    let mut p: usize = 19;
    if s.len() > 19 && s[19] == 46 {
        let mut j: usize = 20;
        loop
            invariant_except_break
                20 <= j <= s@.len(),
                s@.len() > 19,
                digit_run_end(s@, 20) == digit_run_end(s@, j as int),
            ensures
                20 <= j <= s@.len(),
                digit_run_end(s@, 20) == j as int,
            decreases s@.len() - j,
        {
            if j >= s.len() {
                proof {
                    assert(digit_run_end(s@, j as int) == j as int);
                }
                break;
            }
            let c = s[j];
            if !(48 <= c && c <= 57) {
                proof {
                    assert(digit_run_end(s@, j as int) == j as int);
                }
                break;
            }
            j += 1;
        }
        if j == 20 {
            return None;
        }
        p = j;
    }
    // offset
    if p >= s.len() {
        return None;
    }
    let off: i64 = if s[p] == 90 || s[p] == 122 {
        if p + 1 != s.len() {
            return None;
        }
        0
    } else if s[p] == 43 || s[p] == 45 {
        if s.len() - p != 6 {
            return None;
        }
        if s[p + 3] != 58 {
            return None;
        }
        let oh = match read2(s, p + 1) {
            Some(v) => v,
            None => {
                return None;
            },
        };
        let om = match read2(s, p + 4) {
            Some(v) => v,
            None => {
                return None;
            },
        };
        if !(oh <= 23 && om <= 59) {
            return None;
        }
        let abs: i64 = (oh * 3600 + om * 60) as i64;
        if s[p] == 43 {
            abs
        } else {
            -abs
        }
    } else {
        return None;
    };
    proof {
        lemma_days_before_year_bounds(1970, y as int);
        lemma_days_before_month_bounds(y as int, m as int);
    }
    let days: u64 = days_before_year_x(y) + days_before_month_x(y, m) + (d - 1);
    let secs: u64 = days * 86400 + h * 3600 + mi * 60 + sec;
    Some((secs as i64) - off)
}

/// The canonical rendering of a civil instant: `YYYY-MM-DDThh:mm:ssZ`.
pub open spec fn render_rfc3339(y: int, m: int, d: int, h: int, mi: int, s: int) -> Seq<u8> {
    seq![
        (48 + y / 1000) as u8,
        (48 + (y / 100) % 10) as u8,
        (48 + (y / 10) % 10) as u8,
        (48 + y % 10) as u8,
        45u8,
        (48 + m / 10) as u8,
        (48 + m % 10) as u8,
        45u8,
        (48 + d / 10) as u8,
        (48 + d % 10) as u8,
        84u8,
        (48 + h / 10) as u8,
        (48 + h % 10) as u8,
        58u8,
        (48 + mi / 10) as u8,
        (48 + mi % 10) as u8,
        58u8,
        (48 + s / 10) as u8,
        (48 + s % 10) as u8,
        90u8,
    ]
}

/// The rendering of a valid civil instant parses back to the same instant.
pub proof fn lemma_render_parses(y: int, m: int, d: int, h: int, mi: int, s: int)
    requires
        civil_ok(y, m, d, h, mi, s),
    ensures
        rfc3339_ok(render_rfc3339(y, m, d, h, mi, s)),
        rfc3339_value(render_rfc3339(y, m, d, h, mi, s)) == epoch_seconds(y, m, d, h, mi, s),
{
    let r = render_rfc3339(y, m, d, h, mi, s);
    lemma_digits4(y);
    lemma_digits2(m);
    lemma_digits2(d);
    lemma_digits2(h);
    lemma_digits2(mi);
    lemma_digits2(s);
    assert(four_digits(r, 0) == y);
    assert(two_digits(r, 5) == m);
    assert(two_digits(r, 8) == d);
    assert(two_digits(r, 11) == h);
    assert(two_digits(r, 14) == mi);
    assert(two_digits(r, 17) == s);
    assert(offset_start(r) == 19);
    assert(offset_ok(r, 19));
    assert(date_time_ok(r));
}

/// One past the largest representable instant, 9999-12-31T23:59:59Z.
pub open spec fn epoch_end() -> int {
    days_before_year(10000) * 86400
}

/// Format epoch seconds as the canonical `YYYY-MM-DDThh:mm:ssZ`.
pub fn format_rfc3339(t: u64) -> (r: Vec<u8>)
    requires
        t < epoch_end(),
    ensures
        r@.len() == 20,
        rfc3339_ok(r@),
        rfc3339_value(r@) == t,
{
    let days: u64 = t / 86400;
    let rem: u64 = t % 86400;
    let h: u64 = rem / 3600;
    let r2: u64 = rem % 3600;
    let mi: u64 = r2 / 60;
    let sec: u64 = r2 % 60;
    proof {
        vstd::arithmetic::div_mod::lemma_fundamental_div_mod(t as int, 86400);
        vstd::arithmetic::div_mod::lemma_mod_division_less_than_divisor(t as int, 86400);
        vstd::arithmetic::div_mod::lemma_div_pos_is_pos(t as int, 86400);
        vstd::arithmetic::div_mod::lemma_fundamental_div_mod(rem as int, 3600);
        vstd::arithmetic::div_mod::lemma_mod_division_less_than_divisor(rem as int, 3600);
        vstd::arithmetic::div_mod::lemma_div_pos_is_pos(rem as int, 3600);
        vstd::arithmetic::div_mod::lemma_fundamental_div_mod(r2 as int, 60);
        vstd::arithmetic::div_mod::lemma_mod_division_less_than_divisor(r2 as int, 60);
        vstd::arithmetic::div_mod::lemma_div_pos_is_pos(r2 as int, 60);
        // days stays below the year-10000 day count
        vstd::arithmetic::div_mod::lemma_multiply_divide_lt(
            t as int,
            days_before_year(10000),
            86400,
        );
    }
    let mut y: u64 = 1970;
    let mut dd: u64 = days;
    proof {
        assert(days_before_year(1970) == 0);
    }
    loop
        invariant_except_break
            1970 <= y <= 9999,
            days_before_year(y as int) + dd == days,
            days < days_before_year(10000),
            dd <= days,
        ensures
            1970 <= y <= 9999,
            days_before_year(y as int) + dd == days,
            dd < days_in_year(y as int),
        decreases dd,
    {
        let leap: bool = (y % 4 == 0 && y % 100 != 0) || y % 400 == 0;
        let diy: u64 = if leap {
            366
        } else {
            365
        };
        if dd < diy {
            break;
        }
        proof {
            lemma_days_before_year_bounds(y as int + 1, 10000);
        }
        dd -= diy;
        y += 1;
    }
    let ghost dd0 = dd as int;
    proof {
        lemma_months_sum(y as int);
    }
    let mut m: u64 = 1;
    loop
        invariant_except_break
            1 <= m <= 12,
            days_before_month(y as int, m as int) + dd == dd0,
            dd0 < days_in_year(y as int),
            days_in_year(y as int) == days_before_month(y as int, 13),
            1970 <= y <= 9999,
            dd <= dd0,
            days_before_year(y as int) + dd0 == days,
        ensures
            1 <= m <= 12,
            days_before_month(y as int, m as int) + dd == dd0,
            dd < days_in_month(y as int, m as int),
        decreases dd,
    {
        let dim: u64 = days_in_month_x(y, m);
        if dd < dim {
            break;
        }
        proof {
            if m == 12 {
                assert(days_before_month(y as int, 13) == days_before_month(y as int, 12)
                    + days_in_month(y as int, 12));
            }
        }
        dd -= dim;
        m += 1;
    }
    let d: u64 = dd + 1;
    proof {
        lemma_digits4(y as int);
        lemma_digits2(m as int);
        lemma_digits2(d as int);
        lemma_digits2(h as int);
        lemma_digits2(mi as int);
        lemma_digits2(sec as int);
    }
    let mut out: Vec<u8> = Vec::new();
    out.push((48 + y / 1000) as u8);
    out.push((48 + (y / 100) % 10) as u8);
    out.push((48 + (y / 10) % 10) as u8);
    out.push((48 + y % 10) as u8);
    out.push(45u8);
    out.push((48 + m / 10) as u8);
    out.push((48 + m % 10) as u8);
    out.push(45u8);
    out.push((48 + d / 10) as u8);
    out.push((48 + d % 10) as u8);
    out.push(84u8);
    out.push((48 + h / 10) as u8);
    out.push((48 + h % 10) as u8);
    out.push(58u8);
    out.push((48 + mi / 10) as u8);
    out.push((48 + mi % 10) as u8);
    out.push(58u8);
    out.push((48 + sec / 10) as u8);
    out.push((48 + sec % 10) as u8);
    out.push(90u8);
    proof {
        assert(out@ =~= render_rfc3339(
            y as int,
            m as int,
            d as int,
            h as int,
            mi as int,
            sec as int,
        ));
        lemma_render_parses(y as int, m as int, d as int, h as int, mi as int, sec as int);
    }
    out
}

} // verus!
