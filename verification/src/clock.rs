//! The clock and the calendar.
use vstd::prelude::*;

use crate::numbers;

verus! {

/// The error of a clock that is set before the epoch, opaque here.
#[verifier::external_type_specification]
#[verifier::external_body]
pub struct ExSystemTimeError(std::time::SystemTimeError);

/// A time of std, opaque here.
#[verifier::external_type_specification]
#[verifier::external_body]
pub struct ExSystemTime(std::time::SystemTime);

/// `SystemTime::now` of std. Nothing is claimed of the time.
pub assume_specification[ std::time::SystemTime::now ]() -> std::time::SystemTime
;

/// How long after the epoch a time is, as `SystemTime::duration_since` tells; nothing for a time
/// before the epoch.
pub uninterp spec fn time_since_epoch(t: std::time::SystemTime) -> Option<std::time::Duration>;

/// The whole seconds in a duration, as `Duration::as_secs` tells.
pub uninterp spec fn whole_seconds(d: std::time::Duration) -> u64;

/// The part of a duration below a second in billionths, as `Duration::subsec_nanos` tells.
pub uninterp spec fn nanos_below(d: std::time::Duration) -> u32;

/// `SystemTime::duration_since` of std, from the epoch on. The duration depends on the time alone
/// and is only named, as is for which times there is one.
#[verifier::external_body]
fn since_epoch(t: std::time::SystemTime) -> (r: Result<
    std::time::Duration,
    std::time::SystemTimeError,
>)
    ensures
        match r {
            Ok(d) => time_since_epoch(t) == Some(d),
            Err(_) => time_since_epoch(t) is None,
        },
{
    t.duration_since(std::time::UNIX_EPOCH)
}

/// `Duration::as_secs` of std: the whole seconds, which depend on the duration alone.
pub assume_specification[ std::time::Duration::as_secs ](d: &std::time::Duration) -> (r: u64)
    ensures
        r == whole_seconds(*d),
;

/// `Duration::subsec_nanos` of std: the part below a second, in billionths. It depends on the
/// duration alone.
pub assume_specification[ std::time::Duration::subsec_nanos ](d: &std::time::Duration) -> (r: u32)
    ensures
        r == nanos_below(*d),
        r < 1_000_000_000,
;

/// The seconds from the epoch to a time; none for a time before it.
pub open spec fn seconds_at(t: std::time::SystemTime) -> u64 {
    match time_since_epoch(t) {
        Some(d) => whole_seconds(d),
        None => 0,
    }
}

/// The billionths of the second at a time; none for a time before the epoch.
pub open spec fn nanos_at(t: std::time::SystemTime) -> u32 {
    match time_since_epoch(t) {
        Some(d) => nanos_below(d),
        None => 0,
    }
}

/// The seconds from the epoch to a time; none for a time before it.
pub fn unix_seconds(t: std::time::SystemTime) -> (r: u64)
    ensures
        r == seconds_at(t),
{
    match since_epoch(t) {
        Ok(d) => d.as_secs(),
        Err(_) => 0,
    }
}

/// The billionths of the second at a time; none for a time before the epoch.
pub fn subsecond_nanos(t: std::time::SystemTime) -> (r: u32)
    ensures
        r == nanos_at(t),
        r < 1_000_000_000,
{
    match since_epoch(t) {
        Ok(d) => d.subsec_nanos(),
        Err(_) => 0,
    }
}

/// The seconds since the epoch, at the time that the clock shows; none where the clock is set before
/// the epoch.
pub fn unix_now() -> (r: u64)
    ensures
        exists|t: std::time::SystemTime| r == #[trigger] seconds_at(t),
{
    unix_seconds(std::time::SystemTime::now())
}

/// The billionths of the second, at the time that the clock shows; none where the clock is set
/// before the epoch.
pub fn clock_nanos() -> (r: u32)
    ensures
        exists|t: std::time::SystemTime| r == #[trigger] nanos_at(t),
        r < 1_000_000_000,
{
    subsecond_nanos(std::time::SystemTime::now())
}

// ---- the calendar ----

pub open spec fn is_leap(y: nat) -> bool {
    y % 4 == 0 && (y % 100 != 0 || y % 400 == 0)
}

pub open spec fn year_len(y: nat) -> nat {
    if is_leap(y) {
        366
    } else {
        365
    }
}

pub open spec fn month_len(y: nat, m: nat) -> nat {
    if m == 2 {
        if is_leap(y) {
            29
        } else {
            28
        }
    } else if m == 4 || m == 6 || m == 9 || m == 11 {
        30
    } else {
        31
    }
}

/// The days from the start of 1970 to the start of `y`.
pub open spec fn days_before_year(y: nat) -> nat
    decreases y,
{
    if y <= 1970 {
        0
    } else {
        days_before_year((y - 1) as nat) + year_len((y - 1) as nat)
    }
}

/// The days from the start of `y` to the start of its month `m`.
pub open spec fn days_before_month(y: nat, m: nat) -> nat
    decreases m,
{
    if m <= 1 {
        0
    } else {
        days_before_month(y, (m - 1) as nat) + month_len(y, (m - 1) as nat)
    }
}

/// Whether the day `days` after 1970-01-01 is the day `d` of the month `m` of `y`.
pub open spec fn is_date(days: nat, y: nat, m: nat, d: nat) -> bool {
    &&& y >= 1970
    &&& 1 <= m <= 12
    &&& 1 <= d <= month_len(y, m)
    &&& days == days_before_year(y) + days_before_month(y, m) + d - 1
}

/// The date of the day `days` after 1970-01-01.
pub open spec fn date_of(days: nat) -> (nat, nat, nat) {
    choose|date: (nat, nat, nat)| is_date(days, date.0, date.1, date.2)
}

/// The point in time `secs` seconds after the epoch, for display.
pub open spec fn time_text(secs: nat) -> Seq<char> {
    let date = date_of(secs / 86400);
    numbers::zero_pad(numbers::decimal(date.0), 4) + "-"@ + numbers::zero_pad(
        numbers::decimal(date.1),
        2,
    ) + "-"@ + numbers::zero_pad(numbers::decimal(date.2), 2) + " "@ + numbers::zero_pad(
        numbers::decimal((secs / 3600) % 24),
        2,
    ) + ":"@ + numbers::zero_pad(numbers::decimal((secs / 60) % 60), 2) + ":"@ + numbers::zero_pad(
        numbers::decimal(secs % 60),
        2,
    ) + " UTC"@
}

/// The days before a year by counting leap years.
proof fn lemma_days_before_year(y: nat)
    requires
        y >= 1970,
    ensures
        days_before_year(y) == 365 * (y - 1970) + (y - 1) / 4 - (y - 1) / 100 + (y - 1) / 400 - 477,
    decreases y,
{
    if y > 1970 {
        lemma_days_before_year((y - 1) as nat);
    }
}

proof fn lemma_months(y: nat)
    ensures
        days_before_month(y, 1) == 0,
        days_before_month(y, 2) == 31,
        ({
            let c = 31 + month_len(y, 2);
            &&& days_before_month(y, 3) == c
            &&& days_before_month(y, 4) == c + 31
            &&& days_before_month(y, 5) == c + 61
            &&& days_before_month(y, 6) == c + 92
            &&& days_before_month(y, 7) == c + 122
            &&& days_before_month(y, 8) == c + 153
            &&& days_before_month(y, 9) == c + 184
            &&& days_before_month(y, 10) == c + 214
            &&& days_before_month(y, 11) == c + 245
            &&& days_before_month(y, 12) == c + 275
            &&& days_before_month(y, 13) == c + 306
        }),
{
    reveal_with_fuel(days_before_month, 14);
}

proof fn lemma_month_order(y: nat, m: nat, n: nat)
    requires
        1 <= m < n <= 13,
    ensures
        days_before_month(y, m) + month_len(y, m) <= days_before_month(y, n),
    decreases n,
{
    if n > m + 1 {
        lemma_month_order(y, m, (n - 1) as nat);
    }
}

proof fn lemma_year_order(y: nat, z: nat)
    requires
        1970 <= y < z,
    ensures
        days_before_year(y) + year_len(y) <= days_before_year(z),
    decreases z,
{
    if z > y + 1 {
        lemma_year_order(y, (z - 1) as nat);
    }
}

/// A day has one date only.
pub proof fn dates_are_unique(days: nat, y: nat, m: nat, d: nat, y2: nat, m2: nat, d2: nat)
    requires
        is_date(days, y, m, d),
        is_date(days, y2, m2, d2),
    ensures
        y == y2 && m == m2 && d == d2,
{
    lemma_months(y);
    lemma_months(y2);
    if y < y2 {
        lemma_year_order(y, y2);
        lemma_month_order(y, m, 13);
    } else if y2 < y {
        lemma_year_order(y2, y);
        lemma_month_order(y2, m2, 13);
    } else if m < m2 {
        lemma_month_order(y, m, m2);
    } else if m2 < m {
        lemma_month_order(y, m2, m);
    }
}

/// In a cycle of 400 years that start on the first of March, the year that holds the day `doe`.
#[verifier::spinoff_prover]
proof fn lemma_year_of_cycle(doe: int, yoe: int)
    requires
        0 <= doe < 146097,
        yoe == (doe - doe / 1460 + doe / 36524 - doe / 146096) / 365,
    ensures
        0 <= yoe < 400,
        365 * yoe + yoe / 4 - yoe / 100 <= doe,
        doe < 365 * (yoe + 1) + (yoe + 1) / 4 - (yoe + 1) / 100 + (yoe + 1) / 400,
{
}

/// The year, month and day of the day `days` after 1970-01-01.
pub fn civil_date(days: u64) -> (r: (u64, u64, u64))
    requires
        days <= 213503982334601,
    ensures
        is_date(days as nat, r.0 as nat, r.1 as nat, r.2 as nat),
{
    let z: u64 = days + 719468;
    let era: u64 = z / 146097;
    let doe: u64 = z - era * 146097;
    let yoe: u64 = (doe - doe / 1460 + doe / 36524 - doe / 146096) / 365;
    proof {
        lemma_year_of_cycle(doe as int, yoe as int);
    }
    let y: u64 = yoe + era * 400;
    let doy: u64 = doe - (365 * yoe + yoe / 4 - yoe / 100);
    let mp: u64 = (5 * doy + 2) / 153;
    let d: u64 = doy - (153 * mp + 2) / 5 + 1;
    let mo: u64 = if mp < 10 {
        mp + 3
    } else {
        mp - 9
    };
    let yr: u64 = if mo <= 2 {
        y + 1
    } else {
        y
    };
    proof {
        lemma_date(days as int, era as int, doe as int, yoe as int, doy as int, mp as int);
    }
    (yr, mo, d)
}

/// The leap years up to a year, counted by its cycles and its year in the last of them.
#[verifier::spinoff_prover]
proof fn lemma_cycles(era: int, yoe: int)
    requires
        era >= 0,
        0 <= yoe <= 400,
    ensures
        (yoe + era * 400) / 4 == yoe / 4 + era * 100,
        (yoe + era * 400) / 100 == yoe / 100 + era * 4,
        (yoe + era * 400) / 400 == yoe / 400 + era,
{
}

/// The date of a day by its year and its day in a cycle of years that start on the first of March.
#[verifier::rlimit(80)]
#[verifier::spinoff_prover]
proof fn lemma_date(days: int, era: int, doe: int, yoe: int, doy: int, mp: int)
    requires
        days >= 0,
        era >= 0,
        days + 719468 == era * 146097 + doe,
        0 <= yoe < 400,
        doy == doe - (365 * yoe + yoe / 4 - yoe / 100),
        doy >= 0,
        doe < 365 * (yoe + 1) + (yoe + 1) / 4 - (yoe + 1) / 100 + (yoe + 1) / 400,
        mp == (5 * doy + 2) / 153,
    ensures
        ({
            let y = yoe + era * 400;
            let mo = if mp < 10 {
                mp + 3
            } else {
                mp - 9
            };
            let yr = if mo <= 2 {
                y + 1
            } else {
                y
            };
            is_date(days as nat, yr as nat, mo as nat, (doy - (153 * mp + 2) / 5 + 1) as nat)
        }),
{
    let y = yoe + era * 400;
    lemma_cycles(era, yoe);
    lemma_cycles(era, yoe + 1);
    assert(days + 719468 == 365 * y + y / 4 - y / 100 + y / 400 + doy);
    assert(doy <= 365);
    assert(0 <= mp <= 11);
    let z = y + 1;
    lemma_months(y as nat);
    lemma_months(z as nat);
    if mp < 10 {
        assert(y >= 1970) by {
            if y < 1970 {
                assert(365 * y + y / 4 - y / 100 + y / 400 <= 365 * 1969 + 492 - 19 + 4);
                assert(mp >= 10);
            }
        }
        lemma_days_before_year(y as nat);
    } else {
        assert(z >= 1970);
        lemma_days_before_year(z as nat);
        assert(is_leap(z as nat) == (z % 4 == 0 && (z % 100 != 0 || z % 400 == 0)));
    }
}

/// The point in time `secs` seconds after the epoch, for display.
pub fn time_string(secs: u64) -> (r: String)
    ensures
        r@ == time_text(secs as nat),
{
    let days: u64 = secs / 86400;
    let (y, m, d): (u64, u64, u64) = civil_date(days);
    proof {
        let date = date_of(days as nat);
        assert(is_date(days as nat, (y as nat, m as nat, d as nat).0, m as nat, d as nat));
        assert(is_date(days as nat, date.0, date.1, date.2));
        dates_are_unique(days as nat, y as nat, m as nat, d as nat, date.0, date.1, date.2);
    }
    let mut s: String = String::new();
    numbers::push_padded(&mut s, y, 4);
    s.append("-");
    numbers::push_padded(&mut s, m, 2);
    s.append("-");
    numbers::push_padded(&mut s, d, 2);
    s.append(" ");
    numbers::push_padded(&mut s, (secs / 3600) % 24, 2);
    s.append(":");
    numbers::push_padded(&mut s, (secs / 60) % 60, 2);
    s.append(":");
    numbers::push_padded(&mut s, secs % 60, 2);
    s.append(" UTC");
    assert(s@ =~= time_text(secs as nat));
    s
}

/// The current time, for display.
pub fn now_str() -> (r: String)
    ensures
        exists|secs: u64| r@ == #[trigger] time_text(secs as nat),
{
    let secs: u64 = unix_now();
    let r: String = time_string(secs);
    assert(r@ == time_text(secs as nat));
    r
}

// ---- what the calls give ----

/// The first day is the first of January 1970.
pub proof fn days_begin_in_1970(r: (u64, u64, u64))
    requires
        call_ensures(civil_date, (0u64,), r),
    ensures
        r == (1970u64, 1u64, 1u64),
{
    assert(is_date(0, 1970, 1, 1)) by {
        lemma_months(1970);
    }
    dates_are_unique(0, 1970, 1, 1, r.0 as nat, r.1 as nat, r.2 as nat);
}

/// One day is followed by the next one of its month, its last day by the first of the next month,
/// and the last of December by the first of January. February has 29 days in years that are divided
/// by four, but for those that are divided by a hundred and not by four hundred.
pub proof fn days_follow_each_other(days: u64, a: (u64, u64, u64), b: (u64, u64, u64), next: u64)
    requires
        days < next == days + 1,
        call_ensures(civil_date, (days,), a),
        call_ensures(civil_date, (next,), b),
    ensures
        ({
            let (y, m, d) = a;
            let leap = y % 4 == 0 && (y % 100 != 0 || y % 400 == 0);
            let last: u64 = if m == 2 && leap {
                29
            } else if m == 2 {
                28
            } else if m == 4 || m == 6 || m == 9 || m == 11 {
                30
            } else {
                31
            };
            &&& 1 <= m <= 12
            &&& 1 <= d <= last
            &&& d < last ==> b == (y, m, (d + 1) as u64)
            &&& d == last && m < 12 ==> b == (y, (m + 1) as u64, 1u64)
            &&& d == last && m == 12 ==> b.0 == y + 1 && b.1 == 1 && b.2 == 1
        }),
{
    let (y, m, d) = (a.0 as nat, a.1 as nat, a.2 as nat);
    lemma_months(y);
    if d < month_len(y, m) {
        assert(is_date(next as nat, y, m, d + 1));
        dates_are_unique(next as nat, y, m, d + 1, b.0 as nat, b.1 as nat, b.2 as nat);
    } else if m < 12 {
        assert(days_before_month(y, m + 1) == days_before_month(y, m) + month_len(y, m));
        assert(is_date(next as nat, y, m + 1, 1));
        dates_are_unique(next as nat, y, m + 1, 1, b.0 as nat, b.1 as nat, b.2 as nat);
    } else {
        assert(days_before_year(y + 1) == days_before_year(y) + year_len(y));
        assert(days_before_month(y + 1, 1) == 0);
        assert(is_date(next as nat, y + 1, 1, 1));
        dates_are_unique(next as nat, y + 1, 1, 1, b.0 as nat, b.1 as nat, b.2 as nat);
    }
}

/// A point in time is written as the date of its day, the hour, the minute and the second, each with
/// leading zeros.
#[verifier::spinoff_prover]
pub proof fn times_are_written(secs: u64, days: u64, date: (u64, u64, u64), r: String)
    requires
        call_ensures(time_string, (secs,), r),
        days == secs / 86400,
        call_ensures(civil_date, (days,), date),
    ensures
        r@ == numbers::zero_pad(numbers::decimal(date.0 as nat), 4) + "-"@ + numbers::zero_pad(
            numbers::decimal(date.1 as nat),
            2,
        ) + "-"@ + numbers::zero_pad(numbers::decimal(date.2 as nat), 2) + " "@ + numbers::zero_pad(
            numbers::decimal(((secs % 86400) / 3600) as nat),
            2,
        ) + ":"@ + numbers::zero_pad(numbers::decimal(((secs % 3600) / 60) as nat), 2) + ":"@
            + numbers::zero_pad(numbers::decimal((secs % 60) as nat), 2) + " UTC"@,
{
    let d = date_of(days as nat);
    assert(is_date(days as nat, date.0 as nat, date.1 as nat, date.2 as nat));
    let found = (date.0 as nat, date.1 as nat, date.2 as nat);
    assert(is_date(days as nat, found.0, found.1, found.2));
    dates_are_unique(days as nat, d.0, d.1, d.2, found.0, found.1, found.2);
    lemma_hours_and_minutes(secs as nat);
    assert(d == found);
}

#[verifier::spinoff_prover]
proof fn lemma_hours_and_minutes(secs: nat)
    ensures
        (secs / 3600) % 24 == (secs % 86400) / 3600,
        (secs / 60) % 60 == (secs % 3600) / 60,
{
    let days = secs / 86400;
    let rest = secs % 86400;
    assert(secs / 3600 == 24 * days + rest / 3600);
    let hours = secs / 3600;
    let left = secs % 3600;
    assert(secs / 60 == 60 * hours + left / 60);
}

} // verus!
