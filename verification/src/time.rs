//! Calendar arithmetic on day counts since 1970-01-01, the local clock
//! (UTC+8) and the timestamps written to logs and result records.

use vstd::prelude::*;

use crate::text::{padded, padded_signed, push_padded, push_padded_signed, string_of};

verus! {

/// Offset of local time from UTC in seconds (UTC+8).
pub const TZ_OFFSET_SECS: i64 = 28800;

/// Gregorian leap year.
pub open spec fn is_leap(y: int) -> bool {
    y % 4 == 0 && (y % 100 != 0 || y % 400 == 0)
}

pub open spec fn days_in_month(y: int, m: int) -> int {
    if m == 2 {
        if is_leap(y) {
            29
        } else {
            28
        }
    } else if m == 4 || m == 6 || m == 9 || m == 11 {
        30
    } else {
        31
    }
}

/// Days in the months of a common year before month `m`.
pub open spec fn days_before_month_common(m: int) -> int {
    if m <= 1 {
        0
    } else if m == 2 {
        31
    } else if m == 3 {
        59
    } else if m == 4 {
        90
    } else if m == 5 {
        120
    } else if m == 6 {
        151
    } else if m == 7 {
        181
    } else if m == 8 {
        212
    } else if m == 9 {
        243
    } else if m == 10 {
        273
    } else if m == 11 {
        304
    } else {
        334
    }
}

/// Leap years among the years before `y` (counted from year 1, and by the
/// same floor formula below it), so that the difference between two years
/// counts the leap years between them.
pub open spec fn leaps_before(y: int) -> int {
    (y - 1) / 4 - (y - 1) / 100 + (y - 1) / 400
}

/// Days from 1970-01-01 to January 1st of year `y`.
pub open spec fn days_before_year(y: int) -> int {
    365 * (y - 1970) + leaps_before(y) - leaps_before(1970)
}

/// Days from 1970-01-01 to the proleptic Gregorian date `y-m-d`.
pub open spec fn days_from_civil(y: int, m: int, d: int) -> int {
    days_before_year(y) + days_before_month_common(m) + (if m > 2 && is_leap(y) {
        1int
    } else {
        0int
    }) + d - 1
}

/// A real calendar date.
pub open spec fn valid_date(y: int, m: int, d: int) -> bool {
    1 <= m <= 12 && 1 <= d <= days_in_month(y, m)
}

/// Rust's `/` on signed integers: the quotient rounded toward zero.
pub open spec fn tdiv(a: int, b: int) -> int {
    if a >= 0 {
        a / b
    } else {
        -((-a) / b)
    }
}

/// Rust's `%` on signed integers: the remainder with the sign of `a`.
pub open spec fn trem(a: int, b: int) -> int {
    a - b * tdiv(a, b)
}

/// Days in the March-based year `k` of a 400-year era before its March 1st.
pub open spec fn era_year_start(k: int) -> int {
    365 * k + k / 4 - k / 100
}

proof fn lemma_year_of_era(doe: int, yoe: int)
    requires
        0 <= doe <= 146096,
        yoe == (doe - doe / 1460 + doe / 36524 - doe / 146096) / 365,
    ensures
        0 <= yoe <= 399,
        era_year_start(yoe) <= doe,
        doe - era_year_start(yoe) <= 364 + (if yoe % 4 == 3 && (yoe % 100 != 99 || yoe == 399) {
            1int
        } else {
            0int
        }),
{
}

proof fn lemma_month_of_year(doy: int, mp: int)
    requires
        0 <= doy <= 365,
        mp == (5 * doy + 2) / 153,
    ensures
        0 <= mp <= 11,
        (153 * mp + 2) / 5 <= doy,
        doy - (153 * mp + 2) / 5 <= (if mp == 0 || mp == 2 || mp == 4 || mp == 5 || mp == 7
            || mp == 9 || mp == 10 {
            30int
        } else if mp == 11 {
            28int
        } else {
            29int
        }) + (if mp == 11 && doy == 365 {
            1int
        } else {
            0int
        }),
{
}

pub(crate) proof fn lemma_leaps_step(y: int)
    ensures
        leaps_before(y + 1) == leaps_before(y) + (if is_leap(y) {
            1int
        } else {
            0int
        }),
{
}

proof fn lemma_leaps_era(era: int, yoe: int)
    requires
        0 <= yoe <= 399,
    ensures
        leaps_before(400 * era + yoe + 1) == 97 * era + yoe / 4 - yoe / 100,
{
}

/// The era (400-year cycle) of the day `z` days after 0000-03-01, as the
/// code computes it with truncating division, is the floor of `z / 146097`.
proof fn lemma_era(z: int)
    ensures
        tdiv(if z >= 0 { z } else { z - 146096 }, 146097) == z / 146097,
        0 <= z - (z / 146097) * 146097 <= 146096,
{
}

/// From the position of a day inside its era to its calendar date.
#[verifier::spinoff_prover]
#[verifier::rlimit(30)]
proof fn lemma_civil_parts(era: int, doe: int, yoe: int, doy: int, mp: int)
    requires
        0 <= doe <= 146096,
        yoe == (doe - doe / 1460 + doe / 36524 - doe / 146096) / 365,
        doy == doe - era_year_start(yoe),
        mp == (5 * doy + 2) / 153,
    ensures
        ({
            let d = doy - (153 * mp + 2) / 5 + 1;
            let m = if mp < 10 { mp + 3 } else { mp - 9 };
            let y = yoe + era * 400;
            let year = if m <= 2 { y + 1 } else { y };
            &&& 0 <= yoe <= 399
            &&& 0 <= doy <= 365
            &&& 0 <= mp <= 11
            &&& valid_date(year, m, d)
            &&& days_from_civil(year, m, d) == 146097 * era + doe - 719468
        }),
{
    lemma_year_of_era(doe, yoe);
    lemma_month_of_year(doy, mp);
    let y = yoe + era * 400;
    lemma_leaps_era(era, yoe);
    lemma_leaps_step(y);
    lemma_leaps_step(y + 1);
    assert(is_leap(y + 1) == (yoe % 4 == 3 && (yoe % 100 != 99 || yoe == 399))) by {
        assert(y + 1 == 400 * era + (yoe + 1));
    }
}

/// The proleptic Gregorian date of the day `z` days after 1970-01-01.
pub fn civil_from_days(z: i64) -> (r: (i64, u32, u32))
    requires
        z <= i64::MAX - 719468,
    ensures
        valid_date(r.0 as int, r.1 as int, r.2 as int),
        days_from_civil(r.0 as int, r.1 as int, r.2 as int) == z,
{
    let z = z + 719_468;
    let n = if z >= 0 {
        z
    } else {
        z - 146_096
    };
    let era = n / 146_097;
    proof {
        lemma_era(z as int);
        assert(era == (z as int) / 146097);
    }
    let doe = z - era * 146_097;
    assert(0 <= doe <= 146096);
    let yoe = (doe - doe / 1460 + doe / 36_524 - doe / 146_096) / 365;
    proof {
        lemma_year_of_era(doe as int, yoe as int);
    }
    let y = yoe + era * 400;
    let doy = doe - (365 * yoe + yoe / 4 - yoe / 100);
    let mp = (5 * doy + 2) / 153;
    proof {
        lemma_civil_parts(era as int, doe as int, yoe as int, doy as int, mp as int);
    }
    let d = doy - (153 * mp + 2) / 5 + 1;
    let m = if mp < 10 {
        mp + 3
    } else {
        mp - 9
    };
    let year = if m <= 2 {
        y + 1
    } else {
        y
    };
    (year, m as u32, d as u32)
}

/// The seconds since 1970-01-01 00:00 UTC read with `SystemTime::now` and
/// `SystemTime::duration_since(UNIX_EPOCH)`, or `None` when the clock stands
/// before that instant. The value depends on
/// the moment of the call, so nothing is promised of it.
#[verifier::external_body]
pub(crate) fn epoch_secs() -> (r: Option<u64>)
{
    match std::time::SystemTime::now().duration_since(std::time::UNIX_EPOCH) {
        Ok(d) => Some(d.as_secs()),
        Err(_) => None,
    }
}

/// Local seconds (UTC+8) for a clock reading `epoch` (seconds since
/// 1970-01-01 00:00 UTC): a clock before 1970 counts as 0, and a reading too
/// large for `i64` saturates.
pub open spec fn local_reading(epoch: Option<u64>) -> int {
    match epoch {
        Some(e) => if e + TZ_OFFSET_SECS <= i64::MAX {
            e + TZ_OFFSET_SECS
        } else {
            i64::MAX as int
        },
        None => TZ_OFFSET_SECS as int,
    }
}

/// Local seconds (UTC+8) for a clock reading: a clock before 1970 counts as
/// 0, and a reading too large for `i64` saturates.
pub fn local_from_epoch(epoch: Option<u64>) -> (r: i64)
    ensures
        r == local_reading(epoch),
{
    let e = match epoch {
        Some(e) => e,
        None => 0,
    };
    if e > (i64::MAX - TZ_OFFSET_SECS) as u64 {
        i64::MAX
    } else {
        e as i64 + TZ_OFFSET_SECS
    }
}

/// The current local time in seconds since 1970-01-01 00:00 (UTC+8).
/// The reading is whatever the system clock gave: the result is the local
/// time of some clock reading.
pub fn local_secs() -> (r: i64)
    ensures
        exists|epoch: Option<u64>| r == #[trigger] local_reading(epoch),
        r >= TZ_OFFSET_SECS,
{
    let epoch = epoch_secs();
    let r = local_from_epoch(epoch);
    assert(r == local_reading(epoch));
    r
}

/// The day number (days since 1970-01-01) of local time `secs`.
pub fn day_of(secs: i64) -> (r: i64)
    ensures
        r == tdiv(secs as int, 86400),
{
    secs / 86_400
}

/// Today's local day number: the day (counted from 1970-01-01) of the
/// local time of some reading of the system clock.
pub fn sys_now() -> (r: i64)
    ensures
        exists|epoch: Option<u64>| r == tdiv(#[trigger] local_reading(epoch), 86400),
        r >= 0,
{
    let secs = local_secs();
    let r = day_of(secs);
    let ghost epoch = choose|epoch: Option<u64>| secs == #[trigger] local_reading(epoch);
    assert(r == tdiv(local_reading(epoch), 86400));
    r
}

/// `YYYY-MM-DD HH:MM:SS` for a second count `secs` since 1970-01-01, with
/// Rust's truncating `/` and `%` for the time of day.
pub open spec fn timestamp_text(secs: int) -> Seq<char> {
    let days = tdiv(secs, 86400);
    let date = civil_of(days);
    let rem = trem(secs, 86400);
    padded_signed(date.0, 4) + seq!['-'] + padded(date.1, 2) + seq!['-'] + padded(date.2, 2)
        + seq![' '] + padded_signed(tdiv(rem, 3600), 2) + seq![':'] + padded_signed(
        tdiv(trem(rem, 3600), 60),
        2,
    ) + seq![':'] + padded_signed(trem(rem, 60), 2)
}

/// The date that `civil_from_days` gives for `z`.
pub open spec fn civil_of(z: int) -> (int, nat, nat) {
    let t = choose|t: (int, nat, nat)| valid_date(t.0, t.1 as int, t.2 as int) && days_from_civil(
        t.0,
        t.1 as int,
        t.2 as int,
    ) == z;
    t
}

/// Two valid dates with the same day number are the same date.
pub proof fn lemma_civil_unique(y1: int, m1: int, d1: int, y2: int, m2: int, d2: int)
    requires
        valid_date(y1, m1, d1),
        valid_date(y2, m2, d2),
        days_from_civil(y1, m1, d1) == days_from_civil(y2, m2, d2),
    ensures
        y1 == y2 && m1 == m2 && d1 == d2,
{
    if y1 < y2 {
        lemma_year_bounds(y1, m1, d1);
        lemma_year_bounds(y2, m2, d2);
        lemma_years_monotone(y1 + 1, y2);
    } else if y2 < y1 {
        lemma_year_bounds(y1, m1, d1);
        lemma_year_bounds(y2, m2, d2);
        lemma_years_monotone(y2 + 1, y1);
    }
}

/// A date of year `y` falls between January 1st of `y` and of `y + 1`.
proof fn lemma_year_bounds(y: int, m: int, d: int)
    requires
        valid_date(y, m, d),
    ensures
        days_before_year(y) <= days_from_civil(y, m, d) < days_before_year(y + 1),
{
    lemma_leaps_step(y);
}

/// Later years start later.
proof fn lemma_years_monotone(a: int, b: int)
    requires
        a <= b,
    ensures
        days_before_year(a) <= days_before_year(b),
    decreases b - a,
{
    if a < b {
        lemma_leaps_step(a);
        lemma_years_monotone(a + 1, b);
    }
}

/// `civil_of` names the date that `civil_from_days` computes.
proof fn lemma_civil_of(z: int, y: int, m: int, d: int)
    requires
        valid_date(y, m, d),
        days_from_civil(y, m, d) == z,
    ensures
        civil_of(z) == (y, m as nat, d as nat),
{
    let t = (y, m as nat, d as nat);
    assert(valid_date(t.0, t.1 as int, t.2 as int) && days_from_civil(t.0, t.1 as int, t.2 as int)
        == z);
    let c = civil_of(z);
    lemma_civil_unique(c.0, c.1 as int, c.2 as int, y, m, d);
}

/// Renders `secs` as `YYYY-MM-DD HH:MM:SS`.
pub fn format_timestamp(secs: i64) -> (r: String)
    ensures
        r@ == timestamp_text(secs as int),
{
    let days = secs / 86_400;
    let (y, m, d) = civil_from_days(days);
    proof {
        lemma_civil_of(days as int, y as int, m as int, d as int);
    }
    let rem = secs % 86_400;
    assert(rem == trem(secs as int, 86400));
    let h = rem / 3600;
    let mi = (rem % 3600) / 60;
    let sec = rem % 60;
    assert(h == tdiv(rem as int, 3600));
    assert(mi == tdiv(trem(rem as int, 3600), 60));
    assert(sec == trem(rem as int, 60));
    let mut out: Vec<char> = Vec::new();
    push_padded_signed(&mut out, y, 4);
    out.push('-');
    push_padded(&mut out, m as u64, 2);
    out.push('-');
    push_padded(&mut out, d as u64, 2);
    out.push(' ');
    push_padded_signed(&mut out, h, 2);
    out.push(':');
    push_padded_signed(&mut out, mi, 2);
    out.push(':');
    push_padded_signed(&mut out, sec, 2);
    assert(out@ == timestamp_text(secs as int));
    string_of(out.as_slice())
}

} // verus!
