//! Calendar arithmetic on front-matter dates: days since the Unix epoch in the
//! proleptic Gregorian calendar, and the text forms the site prints.
use vstd::prelude::*;

use crate::text::{fmt_int, push_dec, push_dec_padded, push_int_padded, push_str, dec, zero_pad};

verus! {

/// A calendar date as TOML writes it.
#[derive(Clone, Copy, Debug, PartialEq, Eq)]
pub struct Date {
    pub year: u16,
    pub month: u8,
    pub day: u8,
}

/// A clock time as TOML writes it; the seconds may be left out.
#[derive(Clone, Copy, Debug, PartialEq, Eq)]
pub struct Time {
    pub hour: u8,
    pub minute: u8,
    pub second: Option<u8>,
    pub nanosecond: Option<u32>,
}

/// A UTC offset as TOML writes it.
#[derive(Clone, Copy, Debug, PartialEq, Eq)]
pub enum Offset {
    Z,
    Custom { minutes: i16 },
}

/// A TOML date-time: any of its three parts may be absent.
#[derive(Clone, Copy, Debug, PartialEq, Eq)]
pub struct Datetime {
    pub date: Option<Date>,
    pub time: Option<Time>,
    pub offset: Option<Offset>,
}

// ---------------------------------------------------------------------------
// Days <-> civil dates
// ---------------------------------------------------------------------------
/// The civil date `(year, month, day)` that lies `days` days after 1970-01-01.
///
/// Years start in March inside the computation (`mp` counts months from March), and each
/// 400-year era has 146097 days.
pub open spec fn spec_civil_from_days(days: int) -> (int, int, int) {
    let z = days + 719_468;
    let era = z / 146_097;
    let doe = z - era * 146_097;
    let yoe = (doe - doe / 1460 + doe / 36_524 - doe / 146_096) / 365;
    let y = yoe + era * 400;
    let doy = doe - (365 * yoe + yoe / 4 - yoe / 100);
    let mp = (5 * doy + 2) / 153;
    let d = doy - (153 * mp + 2) / 5 + 1;
    let m = if mp < 10 { mp + 3 } else { mp - 9 };
    (if m <= 2 { y + 1 } else { y }, m, d)
}

/// The number of days from 1970-01-01 to the civil date `(year, month, day)`.
pub open spec fn spec_days_from_civil(year: int, month: int, day: int) -> int {
    let y = if month <= 2 { year - 1 } else { year };
    let era = y / 400;
    let yoe = y - era * 400;
    let mp = if month > 2 { month - 3 } else { month + 9 };
    let doy = (153 * mp + 2) / 5 + day - 1;
    let doe = yoe * 365 + yoe / 4 - yoe / 100 + doy;
    era * 146_097 + doe - 719_468
}

/// Days before year `n` of an era (eras start on March 1 of a year divisible by 400).
pub open spec fn days_before_year(n: int) -> int {
    365 * n + n / 4 - n / 100
}

/// The year of era and the day of year for a day of era.
proof fn lemma_year_of_era(doe: int)
    requires
        0 <= doe <= 146_096,
    ensures
        ({
            let yoe = (doe - doe / 1460 + doe / 36_524 - doe / 146_096) / 365;
            &&& 0 <= yoe <= 399
            &&& 0 <= doe - days_before_year(yoe) <= 365
        }),
{
    let q4 = doe / 1460;
    let q100 = doe / 36_524;
    let q400 = doe / 146_096;
    let f = doe - q4 + q100 - q400;
    let yoe = f / 365;
    assert(0 <= q400 <= 1);
    assert(0 <= q100 <= 4);
    assert(q4 <= 100);
    assert(0 <= f <= 145_999);
    assert(0 <= yoe <= 399);
    let a = yoe / 4;
    let b = yoe / 100;
    assert(365 * yoe <= f < 365 * yoe + 365);
    assert(4 * a <= yoe < 4 * a + 4);
    assert(100 * b <= yoe < 100 * b + 100);
    assert(1460 * q4 <= doe < 1460 * q4 + 1460);
    assert(36_524 * q100 <= doe < 36_524 * q100 + 36_524);
    assert(0 <= doe - days_before_year(yoe) <= 365) by (nonlinear_arith)
        requires
            0 <= doe <= 146_096,
            f == doe - q4 + q100 - q400,
            365 * yoe <= f < 365 * yoe + 365,
            4 * a <= yoe < 4 * a + 4,
            100 * b <= yoe < 100 * b + 100,
            1460 * q4 <= doe < 1460 * q4 + 1460,
            36_524 * q100 <= doe < 36_524 * q100 + 36_524,
            146_096 * q400 <= doe < 146_096 * q400 + 146_096,
            days_before_year(yoe) == 365 * yoe + a - b,
            0 <= yoe <= 399,
    ;
}

/// The month index and day of month for a day of year counted from March 1.
proof fn lemma_month_of_year(doy: int)
    requires
        0 <= doy <= 365,
    ensures
        ({
            let mp = (5 * doy + 2) / 153;
            let d = doy - (153 * mp + 2) / 5 + 1;
            &&& 0 <= mp <= 11
            &&& 1 <= d <= 31
        }),
{
    let mp = (5 * doy + 2) / 153;
    let s = (153 * mp + 2) / 5;
    assert(153 * mp <= 5 * doy + 2 < 153 * mp + 153);
    assert(5 * s <= 153 * mp + 2 < 5 * s + 5);
    assert(0 <= mp <= 11);
    assert(1 <= doy - s + 1 <= 31);
}

/// The parts of `spec_civil_from_days` are in range: months are 1 to 12 and days 1 to 31.
pub proof fn lemma_civil_ranges(days: int)
    ensures
        1 <= spec_civil_from_days(days).1 <= 12,
        1 <= spec_civil_from_days(days).2 <= 31,
{
    let z = days + 719_468;
    let era = z / 146_097;
    let doe = z - era * 146_097;
    assert(0 <= doe <= 146_096);
    lemma_year_of_era(doe);
    let yoe = (doe - doe / 1460 + doe / 36_524 - doe / 146_096) / 365;
    let doy = doe - (365 * yoe + yoe / 4 - yoe / 100);
    lemma_month_of_year(doy);
}

/// Converting a day count to a civil date and back gives the day count again.
pub proof fn law_civil_round_trip(days: int)
    ensures
        ({
            let (y, m, d) = spec_civil_from_days(days);
            spec_days_from_civil(y, m, d) == days
        }),
{
    let z = days + 719_468;
    let era = z / 146_097;
    let doe = z - era * 146_097;
    assert(0 <= doe <= 146_096);
    lemma_year_of_era(doe);
    let yoe = (doe - doe / 1460 + doe / 36_524 - doe / 146_096) / 365;
    let y = yoe + era * 400;
    let doy = doe - (365 * yoe + yoe / 4 - yoe / 100);
    lemma_month_of_year(doy);
    let mp = (5 * doy + 2) / 153;
    let d = doy - (153 * mp + 2) / 5 + 1;
    let m = if mp < 10 { mp + 3 } else { mp - 9 };
    let year = if m <= 2 { y + 1 } else { y };
    let y2 = if m <= 2 { year - 1 } else { year };
    assert(y2 == y);
    assert(y / 400 == era) by {
        assert(era * 400 <= y < era * 400 + 400);
    }
    let mp2 = if m > 2 { m - 3 } else { m + 9 };
    assert(mp2 == mp);
}

/// Whether `year` is a leap year of the proleptic Gregorian calendar.
pub open spec fn is_leap_year(year: int) -> bool {
    year % 4 == 0 && (year % 100 != 0 || year % 400 == 0)
}

/// The number of days of month `month` (1 to 12) of `year`.
pub open spec fn days_in_month(year: int, month: int) -> int {
    if month == 2 {
        if is_leap_year(year) { 29 } else { 28 }
    } else if month == 4 || month == 6 || month == 9 || month == 11 {
        30
    } else {
        31
    }
}

/// Whether `(year, month, day)` names a day of the proleptic Gregorian calendar.
pub open spec fn is_valid_date(year: int, month: int, day: int) -> bool {
    1 <= month <= 12 && 1 <= day <= days_in_month(year, month)
}

/// The length of year `n` of an era; that year runs from March 1 to the end of the
/// following February, and the last year of an era (the one before a year divisible
/// by 400) always has a February 29.
pub open spec fn era_year_len(n: int) -> int {
    if (n + 1) % 4 == 0 && ((n + 1) % 100 != 0 || n == 399) { 366 } else { 365 }
}

/// The day of year (from March 1) on which month `mp` (0 for March) starts.
pub open spec fn month_start(mp: int) -> int {
    (153 * mp + 2) / 5
}

/// A day of era inside year `n` of the era gives back `n` under the year formula of
/// `spec_civil_from_days`.
proof fn lemma_year_unique(n: int, doe: int)
    requires
        0 <= n <= 399,
        days_before_year(n) <= doe < days_before_year(n) + era_year_len(n),
    ensures
        (doe - doe / 1460 + doe / 36_524 - doe / 146_096) / 365 == n,
{
    let c = n / 100;
    let b = (n % 100) / 4;
    let a = n % 4;
    assert(n == 100 * c + 4 * b + a);
    assert(0 <= c <= 3 && 0 <= b <= 24 && 0 <= a <= 3);
    assert(n / 4 == 25 * c + b);
    assert(days_before_year(n) == 365 * n + 24 * c + b);
    let j = doe - days_before_year(n);
    assert(doe == 36_524 * c + 1460 * b + 365 * a + b + j);
    let e1 = (24 * c + 365 * a + b + j) / 1460;
    let e2 = (1461 * b + 365 * a + j) / 36_524;
    assert(doe / 1460 == 25 * c + b + e1);
    assert(doe / 36_524 == c + e2);
    let q400 = doe / 146_096;
    let t = j - e1 + e2 - q400;
    assert(doe - doe / 1460 + doe / 36_524 - doe / 146_096 == 365 * n + t);
    if a < 3 {
        assert(e1 == 0 && e2 == 0 && q400 == 0);
    } else if b < 24 {
        assert(e2 == 0 && q400 == 0);
    } else if c < 3 {
        assert(e2 == 0 && q400 == 0);
    } else {
        assert(n == 399);
        assert(j == 365 ==> e1 == 1 && e2 == 1 && q400 == 1);
        assert(j < 365 ==> e2 == 0 && q400 == 0);
    }
    assert(0 <= t <= 364);
}

/// Each year of an era ends where the next one starts.
proof fn lemma_era_years_adjacent(n: int)
    requires
        0 <= n < 399,
    ensures
        days_before_year(n) + era_year_len(n) == days_before_year(n + 1),
{
    let a = n % 4;
    assert(n == 4 * (n / 4) + a);
    assert(n == 100 * (n / 100) + n % 100);
    if (n + 1) % 4 == 0 {
        assert((n + 1) / 4 == n / 4 + 1);
    } else {
        assert((n + 1) / 4 == n / 4);
        assert((n + 1) / 100 == n / 100);
    }
}

/// A day of year from March 1 inside month `mp` gives back `mp` and the day of month
/// under the month formula of `spec_civil_from_days`.
proof fn lemma_month_unique(mp: int, doy: int)
    requires
        0 <= mp <= 11,
        month_start(mp) <= doy,
        mp < 11 ==> doy < month_start(mp + 1),
        mp == 11 ==> doy <= 365,
    ensures
        (5 * doy + 2) / 153 == mp,
{
}

/// Year `n` of an era has 366 days exactly when the civil year of its February is a
/// leap year.
proof fn lemma_era_leap(era: int, n: int)
    requires
        0 <= n <= 399,
    ensures
        is_leap_year(era * 400 + n + 1) <==> era_year_len(n) == 366,
{
    let y = era * 400 + n + 1;
    let k = n + 1;
    vstd::arithmetic::div_mod::lemma_fundamental_div_mod_converse(y, 4, era * 100 + k / 4, k % 4);
    vstd::arithmetic::div_mod::lemma_fundamental_div_mod_converse(y, 100, era * 4 + k / 100, k % 100);
    vstd::arithmetic::div_mod::lemma_fundamental_div_mod_converse(y, 400, era + k / 400, k % 400);
}

/// Every day count gives a valid civil date.
pub proof fn law_civil_from_days_is_valid(days: int)
    ensures
        ({
            let (y, m, d) = spec_civil_from_days(days);
            is_valid_date(y, m, d)
        }),
{
    let z = days + 719_468;
    let era = z / 146_097;
    let doe = z - era * 146_097;
    assert(0 <= doe <= 146_096);
    lemma_year_of_era(doe);
    let yoe = (doe - doe / 1460 + doe / 36_524 - doe / 146_096) / 365;
    let doy = doe - days_before_year(yoe);
    if doy >= era_year_len(yoe) {
        assert(yoe < 399);
        lemma_era_years_adjacent(yoe);
        lemma_year_unique(yoe + 1, doe);
        assert(false);
    }
    lemma_month_of_year(doy);
    let mp = (5 * doy + 2) / 153;
    let d = doy - month_start(mp) + 1;
    let m = if mp < 10 { mp + 3 } else { mp - 9 };
    let y = yoe + era * 400;
    let year = if m <= 2 { y + 1 } else { y };
    assert(153 * mp <= 5 * doy + 2 < 153 * mp + 153);
    if mp == 11 {
        lemma_era_leap(era, yoe);
        assert(year == era * 400 + yoe + 1);
    }
    assert(d <= days_in_month(year, m));
}

/// Converting a valid civil date to a day count and back gives the same date.
pub proof fn law_civil_dates_round_trip(year: int, month: int, day: int)
    requires
        is_valid_date(year, month, day),
    ensures
        spec_civil_from_days(spec_days_from_civil(year, month, day)) == (year, month, day),
{
    let y = if month <= 2 { year - 1 } else { year };
    let era = y / 400;
    let yoe = y - era * 400;
    let mp = if month > 2 { month - 3 } else { month + 9 };
    let doy = month_start(mp) + day - 1;
    let doe = days_before_year(yoe) + doy;
    assert(0 <= yoe <= 399);
    if mp == 11 {
        lemma_era_leap(era, yoe);
        assert(year == era * 400 + yoe + 1);
    }
    assert(0 <= doy < era_year_len(yoe));
    lemma_year_unique(yoe, doe);
    lemma_month_unique(mp, doy);
    let days = spec_days_from_civil(year, month, day);
    assert(days == era * 146_097 + doe - 719_468);
    assert(0 <= doe <= 146_096);
    let z = days + 719_468;
    assert(z / 146_097 == era);
}

/// The civil date `days` days after 1970-01-01, as `(year, month, day)`.
pub fn civil_from_days(days: i64) -> (r: (i64, u32, u32))
    requires
        days <= i64::MAX - 719_468,
    ensures
        (r.0 as int, r.1 as int, r.2 as int) == spec_civil_from_days(days as int),
        1 <= r.1 <= 12,
        1 <= r.2 <= 31,
        is_valid_date(r.0 as int, r.1 as int, r.2 as int),
{
    proof {
        lemma_civil_ranges(days as int);
        law_civil_from_days_is_valid(days as int);
    }
    let z = days + 719_468;
    let era = if z >= 0 { z } else { z - 146_096 } / 146_097;
    assert(era == (z as int) / 146_097);
    let doe = (z - era * 146_097) as u64;
    proof {
        lemma_year_of_era(doe as int);
    }
    let yoe = (doe - doe / 1460 + doe / 36_524 - doe / 146_096) / 365;
    let y = yoe as i64 + era * 400;
    let doy = doe - (365 * yoe + yoe / 4 - yoe / 100);
    proof {
        lemma_month_of_year(doy as int);
    }
    let mp = (5 * doy + 2) / 153;
    let d = (doy - (153 * mp + 2) / 5 + 1) as u32;
    let m = if mp < 10 { mp + 3 } else { mp - 9 } as u32;
    (if m <= 2 { y + 1 } else { y }, m, d)
}

/// The intermediate values of `days_from_civil` all fit in an `i64`.
pub open spec fn days_from_civil_fits(year: int, month: int, day: int) -> bool {
    let y = if month <= 2 { year - 1 } else { year };
    let era = y / 400;
    let yoe = y - era * 400;
    let mp = if month > 2 { month - 3 } else { month + 9 };
    let doy = (153 * mp + 2) / 5 + day - 1;
    let doe = yoe * 365 + yoe / 4 - yoe / 100 + doy;
    &&& i64::MIN <= y
    &&& (y < 0 ==> i64::MIN <= y - 399)
    &&& i64::MIN <= era * 146_097 <= i64::MAX
    &&& i64::MIN <= era * 146_097 + doe <= i64::MAX
    &&& i64::MIN <= era * 146_097 + doe - 719_468 <= i64::MAX
}

/// The number of days from 1970-01-01 to `(year, month, day)`.
pub fn days_from_civil(year: i64, month: u32, day: u32) -> (r: i64)
    requires
        days_from_civil_fits(year as int, month as int, day as int),
    ensures
        r == spec_days_from_civil(year as int, month as int, day as int),
{
    let y = if month <= 2 { year - 1 } else { year };
    let era = if y >= 0 { y } else { y - 399 } / 400;
    assert(era == (y as int) / 400);
    let yoe = y - era * 400;
    let mp = if month > 2 { month - 3 } else { month + 9 } as i64;
    let doy = (153 * mp + 2) / 5 + day as i64 - 1;
    let doe = yoe * 365 + yoe / 4 - yoe / 100 + doy;
    era * 146_097 + doe - 719_468
}

// ---------------------------------------------------------------------------
// Text forms
// ---------------------------------------------------------------------------
/// `n` printed with at least `w` digits (`{:0w}` for a non-negative integer).
pub open spec fn padded(n: int, w: nat) -> Seq<char> {
    zero_pad(dec(n as nat), w)
}

/// The UTC time stamp `YYYY-MM-DDThh:mm:ssZ` for `secs` seconds after the epoch.
pub open spec fn spec_format_utc_secs(secs: int) -> Seq<char> {
    let days = secs / 86_400;
    let rem = secs % 86_400;
    let (y, m, d) = spec_civil_from_days(days);
    fmt_int(y, 4) + seq!['-'] + padded(m, 2) + seq!['-'] + padded(d, 2) + seq!['T'] + padded(
        rem / 3600,
        2,
    ) + seq![':'] + padded((rem % 3600) / 60, 2) + seq![':'] + padded(rem % 60, 2) + seq!['Z']
}

/// Formats `secs` seconds after the epoch as an RFC 3339 UTC time stamp.
pub fn format_utc_secs(secs: i64) -> (s: String)
    ensures
        s@ == spec_format_utc_secs(secs as int),
{
    let q = secs / 86_400;
    let r = secs % 86_400;
    let (days, rem) = if r < 0 {
        (q - 1, r + 86_400)
    } else {
        (q, r)
    };
    assert(days == secs as int / 86_400 && rem == secs as int % 86_400);
    let (year, month, day) = civil_from_days(days);
    let mut s = String::new();
    push_int_padded(&mut s, year, 4);
    s.push('-');
    push_dec_padded(&mut s, month as u64, 2);
    s.push('-');
    push_dec_padded(&mut s, day as u64, 2);
    s.push('T');
    push_dec_padded(&mut s, (rem / 3600) as u64, 2);
    s.push(':');
    push_dec_padded(&mut s, ((rem % 3600) / 60) as u64, 2);
    s.push(':');
    push_dec_padded(&mut s, (rem % 60) as u64, 2);
    s.push('Z');
    assert(s@ =~= spec_format_utc_secs(secs as int));
    s
}

/// The date, time and offset are all present.
pub open spec fn spec_is_offset_datetime(dt: Datetime) -> bool {
    dt.date is Some && dt.time is Some && dt.offset is Some
}

/// Whether `dt` is a full offset date-time such as `2026-09-04T08:00:00+03:00`.
pub fn is_offset_datetime(dt: &Datetime) -> (b: bool)
    ensures
        b == spec_is_offset_datetime(*dt),
{
    dt.date.is_some() && dt.time.is_some() && dt.offset.is_some()
}

/// The offset in seconds east of UTC.
pub open spec fn offset_secs(o: Offset) -> int {
    match o {
        Offset::Z => 0,
        Offset::Custom { minutes } => minutes * 60,
    }
}

/// The seconds since the epoch that an offset date-time stands for (missing seconds count
/// as zero).
pub open spec fn spec_epoch_secs(dt: Datetime) -> int {
    let date = dt.date->0;
    let time = dt.time->0;
    let second: int = match time.second {
        Some(s) => s as int,
        None => 0,
    };
    spec_days_from_civil(date.year as int, date.month as int, date.day as int) * 86_400
        + time.hour * 3600 + time.minute * 60 + second - offset_secs(dt.offset->0)
}

/// The RFC 3339 UTC time stamp of an offset date-time.
pub open spec fn spec_utc_rfc3339(dt: Datetime) -> Seq<char> {
    spec_format_utc_secs(spec_epoch_secs(dt))
}

/// Normalizes an offset date-time to UTC, as `YYYY-MM-DDThh:mm:ssZ`.
pub fn utc_rfc3339(dt: &Datetime) -> (s: String)
    requires
        spec_is_offset_datetime(*dt),
    ensures
        s@ == spec_utc_rfc3339(*dt),
{
    let date = dt.date.unwrap();
    let time = dt.time.unwrap();
    let offset: i64 = match dt.offset.unwrap() {
        Offset::Z => 0,
        Offset::Custom { minutes } => minutes as i64 * 60,
    };
    let second: i64 = match time.second {
        Some(sec) => sec as i64,
        None => 0,
    };
    proof {
        let y = if date.month <= 2 { date.year - 1 } else { date.year as int };
        assert(-1 <= y <= 65_535);
        assert(-1 <= y / 400 <= 163);
    }
    let days = days_from_civil(date.year as i64, date.month as u32, date.day as u32);
    assert(-1_000_000 <= days <= 100_000_000);
    let secs = days * 86_400 + time.hour as i64 * 3600 + time.minute as i64 * 60 + second - offset;
    format_utc_secs(secs)
}

/// The `(year, month, day)` of a date-time that has a date.
pub fn date_parts(dt: &Datetime) -> (r: (u16, u8, u8))
    requires
        dt.date is Some,
    ensures
        r == (dt.date->0.year, dt.date->0.month, dt.date->0.day),
{
    let date = dt.date.unwrap();
    (date.year, date.month, date.day)
}

/// The English three-letter abbreviation of month `m` (1 to 12).
pub open spec fn month_abbr(m: int) -> Seq<char> {
    if m == 1 {
        "Jan"@
    } else if m == 2 {
        "Feb"@
    } else if m == 3 {
        "Mar"@
    } else if m == 4 {
        "Apr"@
    } else if m == 5 {
        "May"@
    } else if m == 6 {
        "Jun"@
    } else if m == 7 {
        "Jul"@
    } else if m == 8 {
        "Aug"@
    } else if m == 9 {
        "Sep"@
    } else if m == 10 {
        "Oct"@
    } else if m == 11 {
        "Nov"@
    } else {
        "Dec"@
    }
}

/// The English names of the months, January first.
pub open spec fn english_months() -> Seq<Seq<char>> {
    seq![
            "January"@,
            "February"@,
            "March"@,
            "April"@,
            "May"@,
            "June"@,
            "July"@,
            "August"@,
            "September"@,
            "October"@,
            "November"@,
            "December"@,
    ]
}

/// Month `m`'s abbreviation is the first three letters of its English name.
pub proof fn law_month_abbreviations_follow_the_calendar(m: int)
    requires
        1 <= m <= 12,
    ensures
        month_abbr(m) == english_months()[m - 1].take(3),
{
    reveal_strlit("Jan");
    reveal_strlit("Feb");
    reveal_strlit("Mar");
    reveal_strlit("Apr");
    reveal_strlit("May");
    reveal_strlit("Jun");
    reveal_strlit("Jul");
    reveal_strlit("Aug");
    reveal_strlit("Sep");
    reveal_strlit("Oct");
    reveal_strlit("Nov");
    reveal_strlit("Dec");
    reveal_strlit("January");
    reveal_strlit("February");
    reveal_strlit("March");
    reveal_strlit("April");
    reveal_strlit("May");
    reveal_strlit("June");
    reveal_strlit("July");
    reveal_strlit("August");
    reveal_strlit("September");
    reveal_strlit("October");
    reveal_strlit("November");
    reveal_strlit("December");
    assert(month_abbr(m) =~= english_months()[m - 1].take(3));
}

/// The twelve months have twelve different abbreviations.
pub proof fn law_month_abbreviations_are_distinct(m1: int, m2: int)
    requires
        1 <= m1 <= 12,
        1 <= m2 <= 12,
        m1 != m2,
    ensures
        month_abbr(m1) != month_abbr(m2),
{
    reveal_strlit("Jan");
    reveal_strlit("Feb");
    reveal_strlit("Mar");
    reveal_strlit("Apr");
    reveal_strlit("May");
    reveal_strlit("Jun");
    reveal_strlit("Jul");
    reveal_strlit("Aug");
    reveal_strlit("Sep");
    reveal_strlit("Oct");
    reveal_strlit("Nov");
    reveal_strlit("Dec");
    if month_abbr(m1) == month_abbr(m2) {
        assert(month_abbr(m1)[0] == month_abbr(m2)[0]);
        assert(month_abbr(m1)[1] == month_abbr(m2)[1]);
        assert(month_abbr(m1)[2] == month_abbr(m2)[2]);
    }
}

/// The abbreviation of month `m`.
fn month_name(m: u8) -> (s: &'static str)
    requires
        1 <= m <= 12,
    ensures
        s@ == month_abbr(m as int),
{
    match m {
        1 => "Jan",
        2 => "Feb",
        3 => "Mar",
        4 => "Apr",
        5 => "May",
        6 => "Jun",
        7 => "Jul",
        8 => "Aug",
        9 => "Sep",
        10 => "Oct",
        11 => "Nov",
        _ => "Dec",
    }
}

/// The display form `Sep 4, 2026`.
pub open spec fn spec_format_date(date: Date) -> Seq<char> {
    month_abbr(date.month as int) + seq![' '] + dec(date.day as nat) + seq![',', ' '] + dec(
        date.year as nat,
    )
}

/// The display form of a date-time's date, such as `Sep 4, 2026`.
pub fn format_date(dt: &Datetime) -> (s: String)
    requires
        dt.date is Some,
        1 <= dt.date->0.month <= 12,
    ensures
        s@ == spec_format_date(dt.date->0),
{
    let (year, month, day) = date_parts(dt);
    let mut s = String::new();
    push_str(&mut s, month_name(month));
    s.push(' ');
    push_dec(&mut s, day as u64);
    s.push(',');
    s.push(' ');
    push_dec(&mut s, year as u64);
    assert(s@ =~= spec_format_date(dt.date->0));
    s
}

/// The ISO form `2026-09-04`.
pub open spec fn spec_iso_date(date: Date) -> Seq<char> {
    padded(date.year as int, 4) + seq!['-'] + padded(date.month as int, 2) + seq!['-'] + padded(
        date.day as int,
        2,
    )
}

/// The ISO form of a date-time's date, such as `2026-09-04`.
pub fn iso_date(dt: &Datetime) -> (s: String)
    requires
        dt.date is Some,
    ensures
        s@ == spec_iso_date(dt.date->0),
{
    let (year, month, day) = date_parts(dt);
    let mut s = String::new();
    push_dec_padded(&mut s, year as u64, 4);
    s.push('-');
    push_dec_padded(&mut s, month as u64, 2);
    s.push('-');
    push_dec_padded(&mut s, day as u64, 2);
    assert(s@ =~= spec_iso_date(dt.date->0));
    s
}

} // verus!
