//! The calendar and the clock: how long months and years are, which weekday a
//! date has, and which instant a reading without a zone or a year stands for.

use vstd::prelude::*;

use crate::clock::{
    civil, day_number, days_before_month, days_in_month, leap_year, seconds_at, shows,
    whole_seconds, Civil,
};
use crate::formats::Moment;
use crate::moments::{in_year, most_recent, settled};

verus! {

/// Every fourth year has a day more, but of the full centuries only every fourth.
pub proof fn lemma_leap_years(y: int)
    ensures
        y % 4 != 0 ==> !leap_year(y),
        y % 400 == 0 ==> leap_year(y),
        y % 100 == 0 && y % 400 != 0 ==> !leap_year(y),
        y % 4 == 0 && y % 100 != 0 ==> leap_year(y),
{
}

/// The lengths of the twelve months, and of the year with them.
pub proof fn lemma_month_lengths(y: int)
    ensures
        days_in_month(y, 1) == 31 && days_in_month(y, 3) == 31 && days_in_month(y, 5) == 31,
        days_in_month(y, 7) == 31 && days_in_month(y, 8) == 31 && days_in_month(y, 10) == 31,
        days_in_month(y, 12) == 31,
        days_in_month(y, 4) == 30 && days_in_month(y, 6) == 30 && days_in_month(y, 9) == 30,
        days_in_month(y, 11) == 30,
        days_in_month(y, 2) == if leap_year(y) {
            29int
        } else {
            28int
        },
        days_before_month(y, 13) == if leap_year(y) {
            366int
        } else {
            365int
        },
{
    reveal_with_fuel(days_before_month, 13);
}

/// Seconds are counted from the start of 1970, and go on without a gap: from a
/// second, a minute, an hour or a day to the next, from the last day of a month to
/// the first of the next, and from the last day of a year to the first of the
/// next.
pub proof fn lemma_seconds_go_on(y: int, m: int, d: int, h: int, mi: int, s: int)
    ensures
        seconds_at(1970, 1, 1, 0, 0, 0) == 0,
        seconds_at(y, m, d, h, mi, s + 1) == seconds_at(y, m, d, h, mi, s) + 1,
        seconds_at(y, m, d, h, mi + 1, s) == seconds_at(y, m, d, h, mi, s) + 60,
        seconds_at(y, m, d, h + 1, mi, s) == seconds_at(y, m, d, h, mi, s) + 3600,
        seconds_at(y, m, d + 1, h, mi, s) == seconds_at(y, m, d, h, mi, s) + 86400,
        1 <= m <= 11 ==> seconds_at(y, m + 1, 1, h, mi, s) == seconds_at(
            y,
            m,
            days_in_month(y, m),
            h,
            mi,
            s,
        ) + 86400,
        seconds_at(y + 1, 1, 1, h, mi, s) == seconds_at(y, 12, 31, h, mi, s) + 86400,
{
    lemma_month_lengths(y);
    reveal_with_fuel(days_before_month, 13);
    assert(day_number(y + 1, 1, 1) == day_number(y, 12, 31) + 1);
}

/// The first of January 1970 was a Thursday, and the weekdays go round from
/// there.
pub proof fn lemma_weekdays_go_round(c: Civil, local: int)
    requires
        shows(c, local),
    ensures
        c.weekday == (local / 86400 + 4) % 7,
{
    let n = day_number(c.year as int, c.month as int, c.day as int);
    assert(local / 86400 == n - 719_163);
    assert((n - 719_163 + 4) % 7 == n % 7);
}

/// The date and time that a clock shows are the parts of the seconds that have
/// passed: the time of day is what is left of whole days.
pub proof fn lemma_time_of_day(c: Civil, local: int)
    requires
        shows(c, local),
    ensures
        c.hour == local % 86400 / 3600,
        c.minute == local % 3600 / 60,
        c.second == local % 60,
{
}

/// A moment with a zone is an instant as it stands; one without a zone is as many
/// seconds earlier as the local clock is ahead of UTC.
pub proof fn lemma_zones_are_taken_off(
    secs: i64,
    nanos: u32,
    zone: int,
    now: int,
    offs: Seq<Option<i32>>,
)
    ensures
        settled(Moment::Exact { secs, nanos }, zone, now, offs) == secs * 1_000_000_000 + nanos,
        settled(Moment::Zoneless { secs, nanos }, zone, now, offs) == settled(
            Moment::Exact { secs, nanos },
            zone,
            now,
            offs,
        ) - zone * 1_000_000_000,
{
}

/// The year that is tried as the `k`th: the one after the current, and then back.
pub open spec fn tried_year(now: int, k: int) -> int {
    civil(whole_seconds(now)).year + 1 - k
}

/// The reading is an instant of the `k`th year that is not in the future.
pub open spec fn passed_in(
    month: int,
    day: int,
    tod: int,
    nanos: int,
    now: int,
    offs: Seq<Option<i32>>,
    k: int,
) -> bool {
    in_year(month, day, tod, nanos, tried_year(now, k), offs[k]) matches Some(t) && t <= now
}

/// A moment without a year is in the most recent of ten years in which it is not
/// in the future, from the year after the current one back; where there is none,
/// it is in the year 2000.
pub proof fn lemma_most_recent_of_ten_years(
    month: int,
    day: int,
    tod: int,
    nanos: int,
    now: int,
    offs: Seq<Option<i32>>,
    k: int,
)
    requires
        0 <= k <= 10,
        forall|j: int| 0 <= j < k ==> !#[trigger] passed_in(month, day, tod, nanos, now, offs, j),
    ensures
        k < 10 && passed_in(month, day, tod, nanos, now, offs, k) ==> most_recent(
            month,
            day,
            tod,
            nanos,
            now,
            offs,
            0,
        ) == in_year(month, day, tod, nanos, tried_year(now, k), offs[k])->0,
        k == 10 ==> most_recent(month, day, tod, nanos, now, offs, 0) == (seconds_at(
            2000,
            month,
            day,
            0,
            0,
            0,
        ) + tod) * 1_000_000_000 + nanos,
{
    lemma_years_are_passed_over(month, day, tod, nanos, now, offs, k);
}

proof fn lemma_years_are_passed_over(
    month: int,
    day: int,
    tod: int,
    nanos: int,
    now: int,
    offs: Seq<Option<i32>>,
    k: int,
)
    requires
        0 <= k <= 10,
        forall|j: int| 0 <= j < k ==> !#[trigger] passed_in(month, day, tod, nanos, now, offs, j),
    ensures
        most_recent(month, day, tod, nanos, now, offs, 0) == most_recent(
            month,
            day,
            tod,
            nanos,
            now,
            offs,
            k,
        ),
    decreases k,
{
    if k > 0 {
        lemma_years_are_passed_over(month, day, tod, nanos, now, offs, k - 1);
        assert(!passed_in(month, day, tod, nanos, now, offs, k - 1));
    }
}

/// In a year that has the date, the instant of a reading is its date and time of
/// day, as many seconds earlier as the local clock is ahead of UTC then.
pub proof fn lemma_instant_in_a_year(
    month: int,
    day: int,
    h: int,
    mi: int,
    s: int,
    nanos: int,
    y: int,
    off: i32,
)
    ensures
        in_year(month, day, h * 3600 + mi * 60 + s, nanos, y, Some(off)) matches Some(t) ==> t == (
        seconds_at(y, month, day, h, mi, s) - off) * 1_000_000_000 + nanos,
        in_year(month, day, h * 3600 + mi * 60 + s, nanos, y, None) is None,
        !(1 <= day <= days_in_month(y, month)) ==> in_year(
            month,
            day,
            h * 3600 + mi * 60 + s,
            nanos,
            y,
            Some(off),
        ) is None,
{
}

} // verus!
