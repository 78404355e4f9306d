//! Instants: how they are counted, moved and compared, and which date and time a
//! clock shows at one.

use vstd::prelude::*;

use crate::clock::{
    answers, answers_when, clock_showed, in_calendar, seconds_at, shows, Civil, LocalOffset,
    LocalReading, UtcTime,
};
use crate::formats::{Moment, Zone, ZoneStyle};
use crate::laws::calendar::{lemma_time_of_day, lemma_weekdays_go_round, tried_year};
use crate::moments::{asked_of_years, most_recent, offsets_of, place, settle, settled};

verus! {

/// An instant is its seconds and nanoseconds since 1970, and is read back as
/// them, rounded down.
pub proof fn lemma_instants_are_counted(
    secs: i64,
    nanos: u32,
    t: UtcTime,
    s: i64,
    n: u32,
    ms: i64,
)
    requires
        call_ensures(UtcTime::new, (secs, nanos), Some(t)),
        call_ensures(UtcTime::seconds, (&t,), s),
        call_ensures(UtcTime::subsec_nanos, (&t,), n),
        call_ensures(UtcTime::millis, (&t,), ms),
    ensures
        t@ == secs * 1_000_000_000 + nanos,
        s == secs,
        n == nanos,
        ms == secs * 1000 + nanos / 1_000_000,
{
}

/// An instant can be held when its seconds are within the range of the calendar and
/// its nanoseconds make up no second.
pub proof fn lemma_instants_have_a_range(secs: i64, nanos: u32, r: Option<UtcTime>)
    requires
        call_ensures(UtcTime::new, (secs, nanos), r),
    ensures
        r is Some <==> -8_334_601_228_800 <= secs <= 8_210_266_876_799 && nanos < 1_000_000_000,
{
}

/// An instant in nanoseconds is a number where 64 bits can hold it.
pub proof fn lemma_instants_in_nanoseconds(t: UtcTime, r: Option<i64>)
    requires
        call_ensures(UtcTime::nanos_since_epoch, (&t,), r),
    ensures
        i64::MIN <= t@ <= i64::MAX ==> r is Some && r->0 == t@,
        t@ < i64::MIN || t@ > i64::MAX ==> r is None,
{
}

/// An offset from UTC is less than a day to either side.
pub proof fn lemma_offsets_are_less_than_a_day(offset: i32, style: ZoneStyle, r: Option<Zone>)
    requires
        call_ensures(Zone::new, (offset, style), r),
    ensures
        r is Some <==> -86400 < offset < 86400,
        r matches Some(z) ==> z.offset_of() == offset && z.style_of() == style,
{
}

/// An instant can be moved by nanoseconds or seconds, and the way between two is
/// what one was moved by.
pub proof fn lemma_instants_are_moved(
    t: UtcTime,
    n: u64,
    k: i64,
    later: UtcTime,
    earlier: UtcTime,
    way: i128,
    back: i128,
)
    requires
        call_ensures(UtcTime::plus_nanos, (&t, n), Some(later)),
        call_ensures(UtcTime::minus_secs, (&t, k), Some(earlier)),
        call_ensures(UtcTime::nanos_since, (&later, &t), way),
        call_ensures(UtcTime::nanos_since, (&t, &earlier), back),
    ensures
        later@ == t@ + n,
        earlier@ == t@ - k * 1_000_000_000,
        way == n,
        back == k * 1_000_000_000,
{
}

/// Of two instants, one is not after the other; each is not after the other only
/// when they are the same.
pub proof fn lemma_instants_are_ordered(a: UtcTime, b: UtcTime, ab: bool, ba: bool)
    requires
        call_ensures(UtcTime::not_after, (&a, &b), ab),
        call_ensures(UtcTime::not_after, (&b, &a), ba),
    ensures
        ab || ba,
        ab && ba <==> a@ == b@,
        ab <==> a@ <= b@,
{
}

/// A clock that is `off` seconds ahead of UTC shows, at an instant, the time of
/// day that has passed since the last of its midnights, and the weekday of that
/// day; 1970-01-01 was a Thursday.
pub proof fn lemma_clocks_show_the_time(t: UtcTime, off: i32, c: Civil)
    requires
        call_ensures(UtcTime::civil_at, (&t, off), c),
    ensures
        ({
            let local = t@ / 1_000_000_000 + off;
            &&& shows(c, local)
            &&& c.hour == local % 86400 / 3600
            &&& c.minute == local % 3600 / 60
            &&& c.second == local % 60
            &&& c.weekday == (local / 86400 + 4) % 7
        }),
{
    let local = t@ / 1_000_000_000 + off;
    lemma_time_of_day(c, local);
    lemma_weekdays_go_round(c, local);
}

/// A moment with a zone is its instant; one without a zone is its instant on a
/// clock of that offset.
pub proof fn lemma_moments_are_settled(
    m: Moment,
    zone: i32,
    now: UtcTime,
    offs: Vec<Option<i32>>,
    r: UtcTime,
)
    requires
        call_ensures(settle, (m, zone, &now, &offs), r),
    ensures
        m matches Moment::Exact { secs, nanos } ==> r@ == secs * 1_000_000_000 + nanos,
        m matches Moment::Zoneless { secs, nanos } ==> r@ == (secs - zone) * 1_000_000_000 + nanos,
        m matches Moment::Yearless { month, day, tod, nanos } ==> r@ == most_recent(
            month as int,
            day as int,
            tod as int,
            nanos as int,
            now@,
            offs@,
            0,
        ),
{
}

/// What the local clock is asked about a moment without a year: for each of the ten
/// years that are tried, how far it is ahead of UTC when it shows the moment in
/// that year, unless the year lacks the date.
pub proof fn lemma_years_are_asked_about(
    asked: Seq<Option<LocalReading>>,
    month: int,
    day: int,
    tod: int,
    now: int,
    k: int,
)
    requires
        asked_of_years(asked, month, day, tod, now),
        0 <= k < 10,
    ensures
        asked.len() == 10,
        asked[k] matches Some(a) ==> answers_when(
            a,
            seconds_at(tried_year(now, k), month, day, 0, 0, 0) + tod,
        ),
        asked[k] is None ==> !in_calendar(tried_year(now, k), month, day, 0, 0, 0),
        offsets_of(asked)[k] == (match asked[k] {
            Some(a) => a.east_then(),
            None => None,
        }),
{
}

/// On this machine, a moment with a zone needs nothing more; one without a zone
/// goes by the offset of the local clock now; and one without a year is in the
/// most recent year that it can be in now.
pub proof fn lemma_moments_are_placed(m: Moment, r: UtcTime)
    requires
        call_ensures(place, (m,), r),
    ensures
        m matches Moment::Exact { secs, nanos } ==> r@ == secs * 1_000_000_000 + nanos,
        m matches Moment::Zoneless { secs, nanos } ==> exists|o: LocalOffset| #[trigger]
            answers(o, None) && r@ == (secs - o.east_of_utc()) * 1_000_000_000 + nanos,
        m matches Moment::Yearless { month, day, tod, nanos } ==> exists|
            now: int,
            asked: Seq<Option<LocalReading>>,
        |
            clock_showed(now) && #[trigger] asked_of_years(
                asked,
                month as int,
                day as int,
                tod as int,
                now,
            ) && r@ == most_recent(
                month as int,
                day as int,
                tod as int,
                nanos as int,
                now,
                offsets_of(asked),
                0,
            ),
{
    if let Moment::Zoneless { secs, nanos } = m {
        let o = choose|o: LocalOffset| #[trigger]
            answers(o, None) && r@ == settled(m, o.east_of_utc(), 0, Seq::empty());
        assert(answers(o, None) && r@ == (secs - o.east_of_utc()) * 1_000_000_000 + nanos);
    }
}

} // verus!
