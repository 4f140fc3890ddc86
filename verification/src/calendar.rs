//! The two calendars of the client agree: the Julian-Day arithmetic that
//! turns guide dates into Unix time, and the year-by-year walk that lays
//! Unix time out in the log.

use vstd::prelude::*;

use crate::logs::{civil_month, civil_of, civil_year, month_len, year_len};
use crate::m3u8::spec_date_to_unix;

verus! {

/// Days from the Unix epoch to `year-month-day`, by the Julian Day Number.
pub open spec fn epoch_day(year: int, month: int, day: int) -> int {
    spec_date_to_unix(year, month, day) / 86400
}

/// Days in the years `from..to`.
pub open spec fn days_between(from: int, to: int) -> nat
    decreases to - from,
{
    if to <= from {
        0
    } else {
        year_len(from) + days_between(from + 1, to)
    }
}

/// Days in the months `from..to` of year `y`.
pub open spec fn days_in_months(y: int, from: int, to: int) -> nat
    decreases to - from,
{
    if to <= from {
        0
    } else {
        month_len(y, from) + days_in_months(y, from + 1, to)
    }
}

proof fn lemma_date_to_unix_days(year: int, month: int, day: int)
    requires
        year >= 1,
        1 <= month <= 12,
    ensures
        spec_date_to_unix(year, month, day) == epoch_day(year, month, day) * 86400,
{
}

/// One year on, the day count grows by the length of the year.
proof fn lemma_epoch_year_step(y: int)
    requires
        y >= 1,
    ensures
        epoch_day(y + 1, 1, 1) == epoch_day(y, 1, 1) + year_len(y),
{
    let n = y + 4799;
    assert((n + 1) / 4 - n / 4 == if (n + 1) % 4 == 0 { 1int } else { 0int });
    assert((n + 1) / 100 - n / 100 == if (n + 1) % 100 == 0 { 1int } else { 0int });
    assert((n + 1) / 400 - n / 400 == if (n + 1) % 400 == 0 { 1int } else { 0int });
    assert(((n + 1) % 4 == 0) == (y % 4 == 0));
    assert(((n + 1) % 100 == 0) == (y % 100 == 0));
    assert(((n + 1) % 400 == 0) == (y % 400 == 0));
    lemma_date_to_unix_days(y, 1, 1);
    lemma_date_to_unix_days(y + 1, 1, 1);
}

/// One month on, the day count grows by the length of the month.
proof fn lemma_epoch_month_step(y: int, m: int)
    requires
        y >= 1,
        1 <= m <= 11,
    ensures
        epoch_day(y, m + 1, 1) == epoch_day(y, m, 1) + month_len(y, m),
{
    let n = y + 4799;
    assert((n + 1) / 4 - n / 4 == if (n + 1) % 4 == 0 { 1int } else { 0int });
    assert((n + 1) / 100 - n / 100 == if (n + 1) % 100 == 0 { 1int } else { 0int });
    assert((n + 1) / 400 - n / 400 == if (n + 1) % 400 == 0 { 1int } else { 0int });
    assert(((n + 1) % 4 == 0) == (y % 4 == 0));
    assert(((n + 1) % 100 == 0) == (y % 100 == 0));
    assert(((n + 1) % 400 == 0) == (y % 400 == 0));
    lemma_date_to_unix_days(y, m, 1);
    lemma_date_to_unix_days(y, m + 1, 1);
}

/// Day `d` of a month comes `d - 1` days after its first.
proof fn lemma_epoch_day_in_month(y: int, m: int, d: int)
    requires
        y >= 1,
        1 <= m <= 12,
    ensures
        epoch_day(y, m, d) == epoch_day(y, m, 1) + d - 1,
{
    lemma_date_to_unix_days(y, m, d);
    lemma_date_to_unix_days(y, m, 1);
}

proof fn lemma_days_between_push(from: int, to: int)
    requires
        from <= to,
    ensures
        days_between(from, to + 1) == days_between(from, to) + year_len(to),
    decreases to - from,
{
    if from < to {
        lemma_days_between_push(from + 1, to);
    } else {
        assert(days_between(to + 1, to + 1) == 0);
    }
}

proof fn lemma_days_in_months_push(y: int, from: int, to: int)
    requires
        from <= to,
    ensures
        days_in_months(y, from, to + 1) == days_in_months(y, from, to) + month_len(y, to),
    decreases to - from,
{
    if from < to {
        lemma_days_in_months_push(y, from + 1, to);
    } else {
        assert(days_in_months(y, to + 1, to + 1) == 0);
    }
}

/// The first of January of `y` is `days_between(1970, y)` days after the
/// epoch.
proof fn lemma_epoch_new_year(y: int)
    requires
        y >= 1970,
    ensures
        epoch_day(y, 1, 1) == days_between(1970, y),
    decreases y - 1970,
{
    if y == 1970 {
        lemma_date_to_unix_days(1970, 1, 1);
    } else {
        lemma_epoch_new_year(y - 1);
        lemma_epoch_year_step(y - 1);
        lemma_days_between_push(1970, y - 1);
    }
}

/// The first of month `m` of `y` is `days_in_months(y, 1, m)` days after
/// the first of January.
proof fn lemma_epoch_month_start(y: int, m: int)
    requires
        y >= 1970,
        1 <= m <= 12,
    ensures
        epoch_day(y, m, 1) == epoch_day(y, 1, 1) + days_in_months(y, 1, m),
    decreases m,
{
    if m > 1 {
        lemma_epoch_month_start(y, m - 1);
        lemma_epoch_month_step(y, m - 1);
        lemma_days_in_months_push(y, 1, m - 1);
    }
}

/// Walking years from `from` over `days_between(from, y) + r` days, with `r`
/// inside year `y`, ends in year `y` at day `r`.
proof fn lemma_civil_year_walk(from: int, y: int, r: nat)
    requires
        from <= y,
        r < year_len(y),
    ensures
        civil_year(days_between(from, y) + r, from) == (y, r),
    decreases y - from,
{
    if from < y {
        lemma_civil_year_walk(from + 1, y, r);
    }
}

/// Walking months from `from` over `days_in_months(y, from, m) + r` days,
/// with `r` inside month `m`, ends in month `m` at day `r`.
proof fn lemma_civil_month_walk(y: int, from: int, m: int, r: nat)
    requires
        1 <= from <= m <= 12,
        r < month_len(y, m),
    ensures
        civil_month(days_in_months(y, from, m) + r, y, from) == (m, r),
    decreases m - from,
{
    if from < m {
        lemma_civil_month_walk(y, from + 1, m, r);
    }
}

/// A date from 1970 on, turned into Unix time by the guide's calendar
/// (`date_to_unix`), reads back through the log's calendar (`format_ts`) as
/// the same date at midnight.
pub proof fn lemma_date_round_trip(y: int, m: int, d: int)
    requires
        1970 <= y,
        1 <= m <= 12,
        1 <= d <= month_len(y, m),
        spec_date_to_unix(y, m, d) <= i64::MAX,
    ensures
        civil_of(spec_date_to_unix(y, m, d) as i64) == (y, m, d, 0int, 0int, 0int),
{
    lemma_date_to_unix_days(y, m, d);
    lemma_epoch_day_in_month(y, m, d);
    lemma_epoch_month_start(y, m);
    lemma_epoch_new_year(y);
    let e = epoch_day(y, m, d);
    let r = days_in_months(y, 1, m) + (d - 1);
    assert(e == days_between(1970, y) + r);
    let ts = spec_date_to_unix(y, m, d);
    lemma_midnight(e);
    lemma_days_in_months_year(y, m);
    lemma_civil_year_walk(1970, y, r as nat);
    lemma_civil_month_walk(y, 1, m, (d - 1) as nat);
}

/// Midnight of day `e` from the epoch: whole days, no hours, minutes or
/// seconds.
proof fn lemma_midnight(e: int)
    requires
        e >= 0,
        e * 86400 <= i64::MAX,
    ensures
        ((((e * 86400) as i64) as u64) as nat) / 86400 == e,
        ((((e * 86400) as i64) as u64) as nat) % 60 == 0,
        (((((e * 86400) as i64) as u64) as nat) / 60) % 60 == 0,
        (((((e * 86400) as i64) as u64) as nat) / 3600) % 24 == 0,
{
    let s = (((e * 86400) as i64) as u64) as nat;
    assert(s == e * 86400);
}

/// The months before `m` and the days of `m` fit in the year.
proof fn lemma_days_in_months_year(y: int, m: int)
    requires
        1 <= m <= 12,
    ensures
        days_in_months(y, 1, m) + month_len(y, m) <= year_len(y),
{
    reveal_with_fuel(days_in_months, 13);
}

/// The last day of a year is followed by the first of the next.
proof fn lemma_epoch_new_year_step(y: int)
    requires
        y >= 1,
    ensures
        epoch_day(y + 1, 1, 1) == epoch_day(y, 12, 31) + 1,
{
    lemma_date_to_unix_days(y, 12, 31);
    lemma_date_to_unix_days(y + 1, 1, 1);
}

/// The day after `year-month-day`.
pub open spec fn next_day(year: int, month: int, day: int) -> (int, int, int) {
    if day < month_len(year, month) {
        (year, month, day + 1)
    } else if month < 12 {
        (year, month + 1, 1)
    } else {
        (year + 1, 1, 1)
    }
}

/// `date_to_unix` counts days from the epoch: 1970-01-01 is 0, and for every
/// date of the years 1 to 9999 the next day comes 86400 seconds later.
pub proof fn lemma_date_to_unix_day_step(y: int, m: int, d: int)
    requires
        1 <= y <= 9999,
        1 <= m <= 12,
        1 <= d <= month_len(y, m),
    ensures
        spec_date_to_unix(1970, 1, 1) == 0,
        spec_date_to_unix(next_day(y, m, d).0, next_day(y, m, d).1, next_day(y, m, d).2)
            == spec_date_to_unix(y, m, d) + 86400,
{
    let (y2, m2, d2) = next_day(y, m, d);
    lemma_date_to_unix_days(y, m, d);
    lemma_date_to_unix_days(y2, m2, d2);
    lemma_epoch_day_in_month(y, m, d);
    lemma_epoch_day_in_month(y2, m2, d2);
    if d < month_len(y, m) {
    } else if m < 12 {
        lemma_epoch_month_step(y, m);
    } else {
        lemma_epoch_new_year_step(y);
    }
}

} // verus!
