//! Calendar dates as plain values.
//!
//! Timestamps in this crate are milliseconds since the Unix epoch. Input
//! documents carry dates in two textual shapes: a `YYYYMMDD-` filename
//! prefix and `YYYY-MM-DD` metadata values. Both parse here, against the
//! proleptic Gregorian calendar, to midnight UTC.

use vstd::prelude::*;

use crate::link::EpochMillis;

verus! {

pub open spec fn is_digit(c: char) -> bool {
    '0' <= c && c <= '9'
}

pub open spec fn digit(c: char) -> int {
    c as int - 48
}

/// Gregorian leap year rule.
pub open spec fn is_leap(y: int) -> bool {
    (y % 4 == 0 && y % 100 != 0) || y % 400 == 0
}

pub open spec fn days_in_month(y: int, m: int) -> int {
    if m == 1 || m == 3 || m == 5 || m == 7 || m == 8 || m == 10 || m == 12 {
        31
    } else if m == 4 || m == 6 || m == 9 || m == 11 {
        30
    } else if is_leap(y) {
        29
    } else {
        28
    }
}

/// A calendar date this crate accepts: four-digit years only.
pub open spec fn valid_date(y: int, m: int, d: int) -> bool {
    &&& 1 <= y <= 9999
    &&& 1 <= m <= 12
    &&& 1 <= d <= days_in_month(y, m)
}

/// Days between 1970-01-01 and the given date in the proleptic Gregorian
/// calendar (negative before the epoch), counted with the era shift that
/// starts years in March so leap days land last.
pub open spec fn days_from_civil(y: int, m: int, d: int) -> int {
    let yy = if m <= 2 {
        y - 1
    } else {
        y
    };
    let era = yy / 400;
    let yoe = yy - era * 400;
    let mp = if m > 2 {
        m - 3
    } else {
        m + 9
    };
    let doy = (153 * mp + 2) / 5 + d - 1;
    let doe = yoe * 365 + yoe / 4 - yoe / 100 + doy;
    era * 146097 + doe - 719468
}

/// Midnight UTC of the given date, in epoch milliseconds.
pub open spec fn spec_date_millis(y: int, m: int, d: int) -> int {
    days_from_civil(y, m, d) * 86400000
}

/// Epoch milliseconds of midnight UTC at the given date.
pub fn date_millis(y: u32, m: u32, d: u32) -> (r: EpochMillis)
    requires
        valid_date(y as int, m as int, d as int),
    ensures
        r == spec_date_millis(y as int, m as int, d as int),
{
    let yy: u64 = if m <= 2 {
        (y - 1) as u64
    } else {
        y as u64
    };
    let era: u64 = yy / 400;
    let yoe: u64 = yy - era * 400;
    let mp: u64 = if m > 2 {
        (m - 3) as u64
    } else {
        (m + 9) as u64
    };
    let doy: u64 = (153 * mp + 2) / 5 + (d - 1) as u64;
    let doe: u64 = yoe * 365 + yoe / 4 - yoe / 100 + doy;
    let days: i64 = (era * 146097 + doe) as i64 - 719468;
    days * 86400000
}

/// Checks a split date against the calendar.
pub fn check_date(y: u32, m: u32, d: u32) -> (r: bool)
    ensures
        r == valid_date(y as int, m as int, d as int),
{
    if !(1 <= y && y <= 9999 && 1 <= m && m <= 12 && d >= 1) {
        return false;
    }
    let dim: u32 = if m == 1 || m == 3 || m == 5 || m == 7 || m == 8 || m == 10 || m == 12 {
        31
    } else if m == 4 || m == 6 || m == 9 || m == 11 {
        30
    } else if (y % 4 == 0 && y % 100 != 0) || y % 400 == 0 {
        29
    } else {
        28
    };
    d <= dim
}

/// The numeric value of the digits `s[from..to]`, read most significant
/// first.
pub open spec fn spec_digits_value(s: Seq<char>, from: int, to: int) -> int
    decreases to - from,
{
    if from >= to {
        0
    } else {
        spec_digits_value(s, from, to - 1) * 10 + digit(s[to - 1])
    }
}

/// Whether every character of `s[from..to]` is a decimal digit.
pub open spec fn all_digits(s: Seq<char>, from: int, to: int) -> bool {
    forall|j: int| from <= j < to ==> is_digit(#[trigger] s[j])
}

/// Ten to the `k`.
pub open spec fn pow10(k: nat) -> int
    decreases k,
{
    if k == 0 {
        1
    } else {
        10 * pow10((k - 1) as nat)
    }
}

/// A digit string's value is non-negative and below ten to its length.
pub proof fn lemma_digits_value_bound(s: Seq<char>, from: int, to: int)
    requires
        from <= to,
        all_digits(s, from, to),
    ensures
        0 <= spec_digits_value(s, from, to) < pow10((to - from) as nat),
    decreases to - from,
{
    if from < to {
        lemma_digits_value_bound(s, from, to - 1);
    }
}

/// Reads the digits `s[from..to]` as a number; at most four digits.
#[verifier::loop_isolation(false)]
pub fn digits_value(s: &[char], from: usize, to: usize) -> (r: u32)
    requires
        from <= to <= s@.len(),
        to - from <= 4,
        all_digits(s@, from as int, to as int),
    ensures
        r == spec_digits_value(s@, from as int, to as int),
{
    proof {
        assert(pow10(0) == 1);
        assert(pow10(1) == 10);
        assert(pow10(2) == 100);
        assert(pow10(3) == 1000);
        assert(pow10(4) == 10000);
    }
    let mut r: u32 = 0;
    let mut i: usize = from;
    while i < to
        invariant
            from <= i <= to,
            r == spec_digits_value(s@, from as int, i as int),
            r < 10000,
        decreases to - i,
    {
        proof {
            assert(is_digit(s@[i as int]));
            lemma_digits_value_bound(s@, from as int, i as int);
            if i - from == 0 {
                assert(r < pow10(0));
            } else if i - from == 1 {
                assert(r < pow10(1));
            } else if i - from == 2 {
                assert(r < pow10(2));
            } else {
                assert(r < pow10(3));
            }
        }
        r = r * 10 + ((s[i] as u32) - 48);
        i += 1;
    }
    proof {
        lemma_digits_value_bound(s@, from as int, to as int);
    }
    r
}

/// What a `YYYYMMDD` digit block means, if it names a calendar date.
pub open spec fn spec_compact_date(s: Seq<char>) -> Option<EpochMillis> {
    if s.len() == 8 && all_digits(s, 0, 8) {
        let y = spec_digits_value(s, 0, 4);
        let m = spec_digits_value(s, 4, 6);
        let d = spec_digits_value(s, 6, 8);
        if valid_date(y, m, d) {
            Some(spec_date_millis(y, m, d) as EpochMillis)
        } else {
            None
        }
    } else {
        None
    }
}

/// What a `YYYY-MM-DD` string means, if it names a calendar date.
pub open spec fn spec_iso_date(s: Seq<char>) -> Option<EpochMillis> {
    if s.len() == 10 && all_digits(s, 0, 4) && s[4] == '-' && all_digits(s, 5, 7) && s[7] == '-'
        && all_digits(s, 8, 10) {
        let y = spec_digits_value(s, 0, 4);
        let m = spec_digits_value(s, 5, 7);
        let d = spec_digits_value(s, 8, 10);
        if valid_date(y, m, d) {
            Some(spec_date_millis(y, m, d) as EpochMillis)
        } else {
            None
        }
    } else {
        None
    }
}

/// Whether `s[from..to]` is all digits, executably.
#[verifier::loop_isolation(false)]
fn check_digits(s: &[char], from: usize, to: usize) -> (r: bool)
    requires
        from <= to <= s@.len(),
    ensures
        r == all_digits(s@, from as int, to as int),
{
    let mut i: usize = from;
    while i < to
        invariant
            from <= i <= to,
            forall|j: int| from <= j < i ==> is_digit(#[trigger] s@[j]),
        decreases to - i,
    {
        let c = s[i];
        if !('0' <= c && c <= '9') {
            return false;
        }
        i += 1;
    }
    true
}

/// Parses a `YYYYMMDD` digit block to midnight UTC.
pub fn parse_compact_date(s: &[char]) -> (r: Option<EpochMillis>)
    ensures
        r == spec_compact_date(s@),
{
    if s.len() != 8 {
        return None;
    }
    if !check_digits(s, 0, 8) {
        return None;
    }
    let y = digits_value(s, 0, 4);
    let m = digits_value(s, 4, 6);
    let d = digits_value(s, 6, 8);
    if check_date(y, m, d) {
        Some(date_millis(y, m, d))
    } else {
        None
    }
}

/// Parses a `YYYY-MM-DD` string to midnight UTC.
pub fn parse_iso_date(s: &[char]) -> (r: Option<EpochMillis>)
    ensures
        r == spec_iso_date(s@),
{
    if s.len() != 10 {
        return None;
    }
    if !(check_digits(s, 0, 4) && s[4] == '-' && check_digits(s, 5, 7) && s[7] == '-'
        && check_digits(s, 8, 10)) {
        return None;
    }
    let y = digits_value(s, 0, 4);
    let m = digits_value(s, 5, 7);
    let d = digits_value(s, 8, 10);
    if check_date(y, m, d) {
        Some(date_millis(y, m, d))
    } else {
        None
    }
}

/// The date named by a `YYYYMMDD-` filename prefix, if any: everything up
/// to the first dash must be an eight-digit calendar date.
pub open spec fn spec_filename_date(name: Seq<char>) -> Option<EpochMillis> {
    spec_compact_date(name.subrange(0, crate::text::spec_find(name, '-', 0)))
}

/// Reads the conventional `YYYYMMDD-` prefix of an importing filename.
pub fn filename_date(name: &str) -> (r: Option<EpochMillis>)
    ensures
        r == spec_filename_date(name@),
{
    let t = crate::text::chars_of(name);
    let e = crate::text::find_char(t.as_slice(), 0, '-');
    let head = crate::text::copy_range(t.as_slice(), 0, e);
    parse_compact_date(head.as_slice())
}

} // verus!
