//! Time-stamp rendering and validation of the closed code sets.
use vstd::prelude::*;
use crate::text::{decimal, zero_pad, push_decimal, push_padded, str_eq};
use crate::models::{currency_of_text, Currency};

verus! {

pub const NANOS_PER_SEC: u64 = 1_000_000_000;
pub const SECS_PER_DAY: u64 = 86400;

/// Whole seconds in a nanosecond time stamp.
pub open spec fn secs_of(ts: u64) -> nat {
    (ts / NANOS_PER_SEC) as nat
}

/// Gregorian leap years.
pub open spec fn is_leap(y: int) -> bool {
    (y % 4 == 0 && y % 100 != 0) || y % 400 == 0
}

pub open spec fn year_len(y: int) -> int {
    if is_leap(y) {
        366
    } else {
        365
    }
}

/// The year in which day `days` (counted from 0 at January 1 of year `y`)
/// falls, and that day's 0-based position in its year.
pub open spec fn civil_year(y: int, days: int) -> (int, int)
    decreases days,
{
    if days < year_len(y) {
        (y, days)
    } else {
        civil_year(y + 1, days - year_len(y))
    }
}

/// The number of days of month `m` (1..=12) of year `y`.
pub open spec fn month_len(y: int, m: int) -> int {
    if m == 2 {
        if is_leap(y) {
            29
        } else {
            28
        }
    } else if m == 4 || m == 6 || m == 9 || m == 11 {
        30
    } else {
        31
    }
}

/// The month, from month `m` on, in which day `doy` (0-based, counted from the
/// first of month `m`) of year `y` falls, and its 0-based day in that month.
pub open spec fn civil_month(y: int, m: int, doy: int) -> (int, int)
    decreases 12 - m,
{
    if m >= 12 || doy < month_len(y, m) {
        (m, doy)
    } else {
        civil_month(y, m + 1, doy - month_len(y, m))
    }
}

/// Whole days since the epoch of a nanosecond time stamp.
pub open spec fn days_of(ts: u64) -> int {
    secs_of(ts) as int / SECS_PER_DAY as int
}

/// The UTC calendar date of a nanosecond time stamp.
pub open spec fn year_of(ts: u64) -> int {
    civil_year(1970, days_of(ts)).0
}

pub open spec fn month_of(ts: u64) -> int {
    civil_month(year_of(ts), 1, civil_year(1970, days_of(ts)).1).0
}

pub open spec fn day_of(ts: u64) -> int {
    civil_month(year_of(ts), 1, civil_year(1970, days_of(ts)).1).1 + 1
}

proof fn lemma_civil_year_from(y: int, days: int)
    requires
        days >= 0,
    ensures
        civil_year(y, days).0 >= y,
        0 <= civil_year(y, days).1,
    decreases days,
{
    if days >= year_len(y) {
        lemma_civil_year_from(y + 1, days - year_len(y));
    }
}

proof fn lemma_civil_month_from(y: int, m: int, doy: int)
    requires
        1 <= m <= 12,
        doy >= 0,
    ensures
        m <= civil_month(y, m, doy).0 <= 12,
        civil_month(y, m, doy).1 >= 0,
    decreases 12 - m,
{
    if !(m >= 12 || doy < month_len(y, m)) {
        lemma_civil_month_from(y, m + 1, doy - month_len(y, m));
    }
}

/// Every date has a year from 1970 on, a month in 1..=12 and a day from 1 on.
pub proof fn lemma_date_in_range(ts: u64)
    ensures
        year_of(ts) >= 1970,
        1 <= month_of(ts) <= 12,
        day_of(ts) >= 1,
{
    lemma_civil_year_from(1970, days_of(ts));
    lemma_civil_month_from(year_of(ts), 1, civil_year(1970, days_of(ts)).1);
}

/// "YYYY-MM" for a nanosecond time stamp.
pub open spec fn year_month_text(ts: u64) -> Seq<char> {
    zero_pad(decimal(year_of(ts) as nat), 4) + seq!['-'] + zero_pad(decimal(month_of(ts) as nat), 2)
}

/// "YYYY-MM-DD HH:MM:SS" for a nanosecond time stamp.
pub open spec fn date_text(ts: u64) -> Seq<char> {
    let secs = secs_of(ts);
    year_month_text(ts) + seq!['-'] + zero_pad(decimal(day_of(ts) as nat), 2) + seq![' ']
        + zero_pad(decimal(secs % 86400 / 3600), 2) + seq![':']
        + zero_pad(decimal(secs % 3600 / 60), 2) + seq![':']
        + zero_pad(decimal(secs % 60), 2)
}

/// The priorities a goal may have.
pub open spec fn is_priority_text(s: Seq<char>) -> bool {
    s == "low"@ || s == "medium"@ || s == "high"@
}

/// Converts a nanosecond time stamp to whole seconds.
pub fn timestamp_ns_to_secs(timestamp_ns: u64) -> (r: u64)
    ensures
        r == secs_of(timestamp_ns),
{
    timestamp_ns / NANOS_PER_SEC
}

/// The decimal rendering of a nanosecond time stamp.
pub fn timestamp_ns_to_string(timestamp_ns: u64) -> (r: String)
    ensures
        r@ == decimal(timestamp_ns as nat),
{
    let mut s = String::new();
    push_decimal(&mut s, timestamp_ns as u128);
    s
}

fn push_char(s: &mut String, c: &str)
    ensures
        final(s)@ == old(s)@ + c@,
{
    s.append(c);
}

fn is_leap_year(y: u64) -> (r: bool)
    ensures
        r == is_leap(y as int),
{
    (y % 4 == 0 && y % 100 != 0) || y % 400 == 0
}

fn year_length(y: u64) -> (r: u64)
    ensures
        r == year_len(y as int),
{
    if is_leap_year(y) {
        366
    } else {
        365
    }
}

fn month_length(y: u64, m: u64) -> (r: u64)
    ensures
        r == month_len(y as int, m as int),
{
    if m == 2 {
        if is_leap_year(y) {
            29
        } else {
            28
        }
    } else if m == 4 || m == 6 || m == 9 || m == 11 {
        30
    } else {
        31
    }
}

/// Year, month and day of a nanosecond time stamp.
fn civil_date(timestamp_ns: u64) -> (r: (u64, u64, u64))
    ensures
        r.0 == year_of(timestamp_ns),
        r.1 == month_of(timestamp_ns),
        r.2 == day_of(timestamp_ns),
{
    let d0 = timestamp_ns / NANOS_PER_SEC / SECS_PER_DAY;
    assert(d0 <= 18_446_744_073u64) by (nonlinear_arith)
        requires
            d0 == timestamp_ns / 1_000_000_000 / 86400,
    ;
    let mut days: u64 = d0;
    let mut y: u64 = 1970;
    while days >= year_length(y)
        invariant
            days <= d0,
            d0 <= 18_446_744_073u64,
            1970 <= y <= 1970 + (d0 - days),
            civil_year(y as int, days as int) == civil_year(1970, d0 as int),
        decreases days,
    {
        days = days - year_length(y);
        y = y + 1;
    }
    proof {
        assert(d0 as int == days_of(timestamp_ns));
    }
    let mut m: u64 = 1;
    let mut doy: u64 = days;
    while m < 12 && doy >= month_length(y, m)
        invariant
            1 <= m <= 12,
            doy <= days <= 18_446_744_073u64,
            civil_month(y as int, m as int, doy as int) == civil_month(y as int, 1, days as int),
        decreases 12 - m,
    {
        doy = doy - month_length(y, m);
        m = m + 1;
    }
    (y, m, doy + 1)
}

/// The year-month bucket key "YYYY-MM" of a nanosecond time stamp.
pub fn get_year_month(timestamp_ns: u64) -> (r: String)
    ensures
        r@ == year_month_text(timestamp_ns),
{
    let (years, months, _) = civil_date(timestamp_ns);
    let mut s = String::new();
    push_padded(&mut s, years, 4);
    proof {
        reveal_strlit("-");
    }
    push_char(&mut s, "-");
    push_padded(&mut s, months, 2);
    assert(s@ =~= year_month_text(timestamp_ns));
    s
}

/// Renders a nanosecond time stamp as "YYYY-MM-DD HH:MM:SS".
pub fn timestamp_to_date(timestamp_ns: u64) -> (r: String)
    ensures
        r@ == date_text(timestamp_ns),
{
    let seconds = timestamp_ns / NANOS_PER_SEC;
    let (_, _, day_of_month) = civil_date(timestamp_ns);
    let hours = (seconds % 86400) / 3600;
    let minutes = (seconds % 3600) / 60;
    let secs = seconds % 60;
    let mut s = get_year_month(timestamp_ns);
    proof {
        reveal_strlit("-");
        reveal_strlit(" ");
        reveal_strlit(":");
    }
    push_char(&mut s, "-");
    push_padded(&mut s, day_of_month, 2);
    push_char(&mut s, " ");
    push_padded(&mut s, hours, 2);
    push_char(&mut s, ":");
    push_padded(&mut s, minutes, 2);
    push_char(&mut s, ":");
    push_padded(&mut s, secs, 2);
    assert(s@ =~= date_text(timestamp_ns));
    s
}

/// Whether `priority` is one of "low", "medium" or "high".
pub fn validate_priority(priority: &str) -> (r: bool)
    ensures
        r == is_priority_text(priority@),
{
    str_eq(priority, "low") || str_eq(priority, "medium") || str_eq(priority, "high")
}

/// Whether `currency` is the code of a supported currency.
pub fn validate_currency(currency: &str) -> (r: bool)
    ensures
        r == currency_of_text(currency@) is Some,
{
    Currency::parse(currency).is_some()
}

} // verus!
