//! The proleptic Gregorian calendar counted from the Unix epoch, and RFC 3339 timestamps.
use vstd::prelude::*;
use crate::text::{decimal, zero_pad, push_decimal_padded, string_from_chars};

verus! {

pub open spec fn is_leap(y: int) -> bool {
    y % 4 == 0 && (y % 100 != 0 || y % 400 == 0)
}

pub open spec fn year_len(y: int) -> int {
    if is_leap(y) { 366 } else { 365 }
}

pub open spec fn month_len(y: int, m: int) -> int {
    if m == 2 {
        if is_leap(y) { 29 } else { 28 }
    } else if m == 4 || m == 6 || m == 9 || m == 11 {
        30
    } else {
        31
    }
}

/// The number of leap years among the years `1 ..= y - 1`.
pub open spec fn leaps_before(y: int) -> int {
    (y - 1) / 4 - (y - 1) / 100 + (y - 1) / 400
}

/// Days from 1970-01-01 to January 1st of year `y`.
pub open spec fn days_before_year(y: int) -> int {
    365 * (y - 1970) + leaps_before(y) - leaps_before(1970)
}

/// Days from January 1st to the first day of month `m` of year `y`.
pub open spec fn days_before_month(y: int, m: int) -> int
    decreases m,
{
    if m <= 1 {
        0
    } else {
        days_before_month(y, m - 1) + month_len(y, m - 1)
    }
}

/// A day of the calendar.
pub open spec fn valid_date(y: int, m: int, d: int) -> bool {
    1 <= m <= 12 && 1 <= d <= month_len(y, m)
}

/// Days from 1970-01-01 to the date `y-m-d`.
pub open spec fn days_from_civil(y: int, m: int, d: int) -> int {
    days_before_year(y) + days_before_month(y, m) + d - 1
}

/// `YYYY-MM-DDTHH:MM:SSZ`, each field zero-padded to its width.
pub open spec fn rfc3339_text(y: nat, mo: nat, d: nat, h: nat, mi: nat, s: nat) -> Seq<char> {
    zero_pad(decimal(y), 4) + seq!['-'] + zero_pad(decimal(mo), 2) + seq!['-'] + zero_pad(
        decimal(d),
        2,
    ) + seq!['T'] + zero_pad(decimal(h), 2) + seq![':'] + zero_pad(decimal(mi), 2) + seq![':']
        + zero_pad(decimal(s), 2) + seq!['Z']
}

/// What `format_rfc3339(unix)` writes: the calendar date `unix / 86400` days after
/// 1970-01-01 and the time of day `unix % 86400` seconds after midnight.
pub open spec fn is_rfc3339_of(text: Seq<char>, unix: nat) -> bool {
    exists|y: nat, m: nat, d: nat|
        {
            &&& valid_date(y as int, m as int, d as int)
            &&& days_from_civil(y as int, m as int, d as int) == unix / 86400
            &&& text == rfc3339_text(
                y,
                m,
                d,
                (unix % 86400) / 3600,
                (unix % 3600) / 60,
                unix % 60,
            )
        }
}

proof fn lemma_year_step(y: int)
    ensures
        days_before_year(y + 1) == days_before_year(y) + year_len(y),
{
    assert(y / 4 - (y - 1) / 4 == if y % 4 == 0 { 1int } else { 0int });
    assert(y / 100 - (y - 1) / 100 == if y % 100 == 0 { 1int } else { 0int });
    assert(y / 400 - (y - 1) / 400 == if y % 400 == 0 { 1int } else { 0int });
}

proof fn lemma_era(e: int)
    requires
        e >= 0,
    ensures
        days_before_year(1970 + 400 * e) == 146097 * e,
{
    assert((1969 + 400 * e) / 4 == 492 + 100 * e);
    assert((1969 + 400 * e) / 100 == 19 + 4 * e);
    assert((1969 + 400 * e) / 400 == 4 + e);
}

proof fn lemma_months_fill_year(y: int)
    ensures
        days_before_month(y, 13) == year_len(y),
        days_before_month(y, 12) + 31 == year_len(y),
{
    reveal_with_fuel(days_before_month, 13);
}

/// Month length as a machine integer.
fn month_length(y: u64, m: u64) -> (r: u64)
    ensures
        r == month_len(y as int, m as int),
{
    let leap = y % 4 == 0 && (y % 100 != 0 || y % 400 == 0);
    if m == 2 {
        if leap { 29 } else { 28 }
    } else if m == 4 || m == 6 || m == 9 || m == 11 {
        30
    } else {
        31
    }
}

fn year_length(y: u64) -> (r: u64)
    ensures
        r == year_len(y as int),
{
    if y % 4 == 0 && (y % 100 != 0 || y % 400 == 0) { 366 } else { 365 }
}

/// The year and day of year (from 0) of the day `days` after 1970-01-01.
fn year_of_day(days: u64) -> (r: (u64, u64))
    ensures
        r.0 >= 1970,
        r.1 < year_len(r.0 as int),
        days_before_year(r.0 as int) + r.1 == days,
{
    let eras = days / 146_097;
    let mut r = days % 146_097;
    let mut y: u64 = 1970 + 400 * eras;
    proof {
        lemma_era(eras as int);
    }
    while r >= year_length(y)
        invariant
            1970 + 400 * eras <= y,
            r + 365 * (y - (1970 + 400 * eras)) <= days % 146_097,
            days_before_year(y as int) + r == days,
        decreases r,
    {
        proof {
            lemma_year_step(y as int);
        }
        r -= year_length(y);
        y += 1;
    }
    (y, r)
}

/// The month (from 1) and day of month (from 0) of day `r` of year `y`.
fn month_of_day(y: u64, day: u64) -> (res: (u64, u64))
    requires
        day < year_len(y as int),
    ensures
        1 <= res.0 <= 12,
        res.1 < month_len(y as int, res.0 as int),
        days_before_month(y as int, res.0 as int) + res.1 == day,
{
    let mut m: u64 = 1;
    let mut r = day;
    proof {
        lemma_months_fill_year(y as int);
    }
    while r >= month_length(y, m)
        invariant
            1 <= m <= 12,
            days_before_month(y as int, m as int) + r < year_len(y as int),
            days_before_month(y as int, m as int) + r == day,
            days_before_month(y as int, 12) + 31 == year_len(y as int),
        decreases 12 - m,
    {
        r -= month_length(y, m);
        m += 1;
    }
    (m, r)
}

proof fn lemma_text(
    out: Seq<char>,
    y: nat,
    m: nat,
    d: nat,
    unix: nat,
)
    requires
        valid_date(y as int, m as int, d as int),
        days_from_civil(y as int, m as int, d as int) == unix / 86400,
        out == rfc3339_text(y, m, d, (unix % 86400) / 3600, ((unix % 86400) % 3600) / 60, (unix % 86400) % 60),
    ensures
        is_rfc3339_of(out, unix),
{
    assert((unix % 86400) % 3600 == unix % 3600);
    assert((unix % 86400) % 60 == unix % 60);
}

/// The UTC timestamp `unix` seconds after the epoch in RFC 3339 form
/// (`YYYY-MM-DDTHH:MM:SSZ`).
pub fn format_rfc3339(unix: u64) -> (s: String)
    ensures
        is_rfc3339_of(s@, unix as nat),
{
    let days = unix / 86_400;
    let rem = unix % 86_400;
    let hour = rem / 3_600;
    let min = (rem % 3_600) / 60;
    let sec = rem % 60;
    let (y, r) = year_of_day(days);
    let (m, r) = month_of_day(y, r);
    let d = r + 1;
    let mut out: Vec<char> = Vec::new();
    push_decimal_padded(&mut out, y, 4);
    out.push('-');
    push_decimal_padded(&mut out, m, 2);
    out.push('-');
    push_decimal_padded(&mut out, d, 2);
    out.push('T');
    push_decimal_padded(&mut out, hour, 2);
    out.push(':');
    push_decimal_padded(&mut out, min, 2);
    out.push(':');
    push_decimal_padded(&mut out, sec, 2);
    out.push('Z');
    proof {
        assert(out@ =~= rfc3339_text(
            y as nat,
            m as nat,
            d as nat,
            hour as nat,
            min as nat,
            sec as nat,
        ));
        lemma_text(out@, y as nat, m as nat, d as nat, unix as nat);
    }
    string_from_chars(&out)
}

proof fn lemma_years_ordered(y1: int, y2: int)
    requires
        y1 < y2,
    ensures
        days_before_year(y1) + year_len(y1) <= days_before_year(y2),
    decreases y2 - y1,
{
    lemma_year_step(y2 - 1);
    if y1 < y2 - 1 {
        lemma_years_ordered(y1, y2 - 1);
    }
}

proof fn lemma_months_ordered(y: int, m1: int, m2: int)
    requires
        1 <= m1 < m2 <= 13,
    ensures
        days_before_month(y, m1) + month_len(y, m1) <= days_before_month(y, m2),
    decreases m2 - m1,
{
    if m1 < m2 - 1 {
        lemma_months_ordered(y, m1, m2 - 1);
    }
}

proof fn lemma_day_in_year(y: int, m: int, d: int)
    requires
        valid_date(y, m, d),
    ensures
        0 <= days_before_month(y, m) + d - 1 < year_len(y),
{
    lemma_months_fill_year(y);
    lemma_months_ordered(y, m, 13);
    if m > 1 {
        lemma_months_ordered(y, 1, m);
    }
}

/// Different calendar days are different day counts from the epoch.
pub proof fn lemma_civil_days_unique(y1: int, m1: int, d1: int, y2: int, m2: int, d2: int)
    requires
        valid_date(y1, m1, d1),
        valid_date(y2, m2, d2),
        days_from_civil(y1, m1, d1) == days_from_civil(y2, m2, d2),
    ensures
        y1 == y2,
        m1 == m2,
        d1 == d2,
{
    lemma_day_in_year(y1, m1, d1);
    lemma_day_in_year(y2, m2, d2);
    if y1 < y2 {
        lemma_years_ordered(y1, y2);
    } else if y2 < y1 {
        lemma_years_ordered(y2, y1);
    }
    if m1 < m2 {
        lemma_months_ordered(y1, m1, m2);
    } else if m2 < m1 {
        lemma_months_ordered(y1, m2, m1);
    }
}

/// A Unix time has exactly one RFC 3339 text: `is_rfc3339_of` pins down what
/// `format_rfc3339` writes.
pub proof fn lemma_rfc3339_unique(t1: Seq<char>, t2: Seq<char>, unix: nat)
    requires
        is_rfc3339_of(t1, unix),
        is_rfc3339_of(t2, unix),
    ensures
        t1 == t2,
{
    let (y1, m1, d1) = choose|y: nat, m: nat, d: nat|
        {
            &&& valid_date(y as int, m as int, d as int)
            &&& days_from_civil(y as int, m as int, d as int) == unix / 86400
            &&& t1 == rfc3339_text(y, m, d, (unix % 86400) / 3600, (unix % 3600) / 60, unix % 60)
        };
    let (y2, m2, d2) = choose|y: nat, m: nat, d: nat|
        {
            &&& valid_date(y as int, m as int, d as int)
            &&& days_from_civil(y as int, m as int, d as int) == unix / 86400
            &&& t2 == rfc3339_text(y, m, d, (unix % 86400) / 3600, (unix % 3600) / 60, unix % 60)
        };
    lemma_civil_days_unique(y1 as int, m1 as int, d1 as int, y2 as int, m2 as int, d2 as int);
}

} // verus!
