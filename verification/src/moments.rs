//! From the moment that a timestamp names to an instant: the zone of a reading
//! without one, and the year of a reading without one.

use vstd::prelude::*;

use crate::clock::{
    answers, answers_when, civil, clock_showed, in_calendar, in_range, lemma_civil_shows,
    lemma_day_number_grows, lemma_seconds_bound, local_offset_now, local_offset_when, seconds_at,
    seconds_of, utc_now, valid_date, valid_offset, whole_seconds, LocalOffset, LocalReading,
    MAX_SECS, MIN_SECS, UtcTime,
};
use crate::detectors::{
    date_time, day_end, day_start, digit_run, fraction_len, fraction_nanos, here, reading,
    signed_offset, zone_at, zone_len,
};
use crate::formats::{DetectedFormat, Moment, Zone};
use crate::text::{lemma_digits_value_bound, lemma_pow10_monotone, number, pow10};

verus! {

broadcast use Zone::lemma_of;

/// The number of years that are tried for a reading without one.
pub const YEARS_TRIED: usize = 10;

/// The instant of a yearless local reading in the year `y`, where `off` is the
/// offset of the local clock then. There is none when the year has no such
/// date, or when the local clock does not show that time exactly once.
pub open spec fn in_year(
    month: int,
    day: int,
    tod: int,
    nanos: int,
    y: int,
    off: Option<i32>,
) -> Option<int> {
    if in_calendar(y, month, day, 0, 0, 0) && off is Some && in_range(
        (seconds_at(y, month, day, 0, 0, 0) + tod - off->0) * 1_000_000_000 + nanos,
    ) {
        Some((seconds_at(y, month, day, 0, 0, 0) + tod - off->0) * 1_000_000_000 + nanos)
    } else {
        None
    }
}

/// The latest year that is tried: the one after the current year in UTC, which
/// may have begun on the local clock.
pub open spec fn latest_year(now: int) -> int {
    civil(whole_seconds(now)).year + 1
}

/// The instant of a yearless reading: that of the most recent of the tried
/// years, from the `k`th back, in which it is not in the future; failing that,
/// of the year 2000 in UTC.
pub open spec fn most_recent(
    month: int,
    day: int,
    tod: int,
    nanos: int,
    now: int,
    offs: Seq<Option<i32>>,
    k: int,
) -> int
    decreases YEARS_TRIED - k,
{
    if k >= YEARS_TRIED {
        (seconds_at(2000, month, day, 0, 0, 0) + tod) * 1_000_000_000 + nanos
    } else {
        match in_year(month, day, tod, nanos, latest_year(now) - k, offs[k]) {
            Some(t) if t <= now => t,
            _ => most_recent(month, day, tod, nanos, now, offs, k + 1),
        }
    }
}

/// The parts of a yearless reading are those of a date and time.
pub open spec fn valid_yearless(month: int, day: int, tod: int, nanos: int) -> bool {
    valid_date(2000, month, day) && 0 <= tod < 86400 && 0 <= nanos < 1_000_000_000
}

/// A moment that a timestamp can name.
pub open spec fn valid_moment(m: Moment) -> bool {
    match m {
        Moment::Exact { secs, nanos } => MIN_SECS <= secs <= MAX_SECS && nanos < 1_000_000_000,
        Moment::Zoneless { secs, nanos } => MIN_SECS + 86400 <= secs <= MAX_SECS - 86400 && nanos
            < 1_000_000_000,
        Moment::Yearless { month, day, tod, nanos } => valid_yearless(
            month as int,
            day as int,
            tod as int,
            nanos as int,
        ),
    }
}

/// The instant of a moment, where `zone` is the offset of a reading without
/// one, and `now` and `offs` decide the year of a reading without one.
pub open spec fn settled(m: Moment, zone: int, now: int, offs: Seq<Option<i32>>) -> int {
    match m {
        Moment::Exact { secs, nanos } => secs * 1_000_000_000 + nanos,
        Moment::Zoneless { secs, nanos } => (secs - zone) * 1_000_000_000 + nanos,
        Moment::Yearless { month, day, tod, nanos } => most_recent(
            month as int,
            day as int,
            tod as int,
            nanos as int,
            now,
            offs,
            0,
        ),
    }
}

/// The offsets of the tried years: each is an offset, and there is none in a
/// year that does not have the date.
pub open spec fn valid_offsets(offs: Seq<Option<i32>>) -> bool {
    &&& offs.len() == YEARS_TRIED
    &&& forall|k: int|
        0 <= k < YEARS_TRIED ==> ((#[trigger] offs[k]) matches Some(o) ==> valid_offset(o as int))
}

/// The year that is chosen is the most recent of those tried in which the
/// reading is not in the future, and then the instant is not in the future;
/// only when there is none is it that of the year 2000 in UTC.
pub proof fn lemma_most_recent_year(
    month: int,
    day: int,
    tod: int,
    nanos: int,
    now: int,
    offs: Seq<Option<i32>>,
    k: int,
)
    requires
        0 <= k <= YEARS_TRIED,
    ensures
        ({
            let t = most_recent(month, day, tod, nanos, now, offs, k);
            ||| t == (seconds_at(2000, month, day, 0, 0, 0) + tod) * 1_000_000_000 + nanos && (
            forall|j: int|
                k <= j < YEARS_TRIED ==> (#[trigger] in_year(
                    month,
                    day,
                    tod,
                    nanos,
                    latest_year(now) - j,
                    offs[j],
                ) matches Some(u) ==> u > now))
            ||| t <= now && (exists|j: int|
                #![trigger offs[j]]
                k <= j < YEARS_TRIED && in_year(
                    month,
                    day,
                    tod,
                    nanos,
                    latest_year(now) - j,
                    offs[j],
                ) == Some(t) && (forall|i: int|
                    k <= i < j ==> (#[trigger] in_year(
                        month,
                        day,
                        tod,
                        nanos,
                        latest_year(now) - i,
                        offs[i],
                    ) matches Some(u) ==> u > now)))
        }),
    decreases YEARS_TRIED - k,
{
    if k < YEARS_TRIED {
        let here = in_year(month, day, tod, nanos, latest_year(now) - k, offs[k]);
        if here is Some && here->0 <= now {
            assert(most_recent(month, day, tod, nanos, now, offs, k) == here->0);
        } else {
            lemma_most_recent_year(month, day, tod, nanos, now, offs, k + 1);
        }
    }
}

/// In a year after the latest that is tried, every reading is in the future,
/// whatever the offset of the local clock.
pub proof fn lemma_later_years_are_in_the_future(
    month: int,
    day: int,
    tod: int,
    nanos: int,
    now: int,
    y: int,
    off: Option<i32>,
)
    requires
        valid_yearless(month, day, tod, nanos),
        in_range(now),
        y > latest_year(now),
        off matches Some(o) ==> valid_offset(o as int),
    ensures
        in_year(month, day, tod, nanos, y, off) matches Some(t) ==> t > now,
{
    if in_year(month, day, tod, nanos, y, off) is Some {
        let secs = whole_seconds(now);
        lemma_civil_shows(secs);
        let c = civil(secs);
        let cy = c.year as int;
        lemma_day_number_grows(cy, c.month as int, c.day as int, cy + 1, 1, 1);
        lemma_day_number_grows(cy + 1, 1, 1, cy + 1, 1, 2);
        lemma_day_number_grows(cy + 1, 1, 2, cy + 1, 1, 3);
        lemma_day_number_grows(cy + 1, 1, 3, y, month, day);
    }
}

/// The instant of a yearless reading, given the current instant and the
/// offsets of the local clock in the tried years.
pub fn resolve_no_year(
    month: u32,
    day: u32,
    tod: u32,
    nanos: u32,
    now: &UtcTime,
    offs: &Vec<Option<i32>>,
) -> (r: UtcTime)
    requires
        valid_yearless(month as int, day as int, tod as int, nanos as int),
        valid_offsets(offs@),
    ensures
        r@ == most_recent(month as int, day as int, tod as int, nanos as int, now@, offs@, 0),
{
    let now_secs: i64 = now.seconds();
    let latest: i32 = now.civil_at(0).year + 1;
    let mut k: usize = 0;
    while k < YEARS_TRIED
        invariant
            k <= YEARS_TRIED,
            valid_yearless(month as int, day as int, tod as int, nanos as int),
            valid_offsets(offs@),
            -262143 <= latest <= 262144,
            latest == latest_year(now@),
            most_recent(month as int, day as int, tod as int, nanos as int, now@, offs@, 0)
                == most_recent(
                month as int,
                day as int,
                tod as int,
                nanos as int,
                now@,
                offs@,
                k as int,
            ),
        decreases YEARS_TRIED - k,
    {
        let year: i32 = latest - k as i32;
        assert(offs@[k as int] matches Some(o) ==> valid_offset(o as int));
        if let Some(midnight) = seconds_of(year, month, day, 0, 0, 0) {
            if let Some(off) = offs[k] {
                if let Some(t) = UtcTime::new(midnight + tod as i64 - off as i64, nanos) {
                    if t.not_after(now) {
                        return t;
                    }
                }
            }
        }
        k += 1;
    }
    let midnight: Option<i64> = seconds_of(2000, month, day, 0, 0, 0);
    proof {
        lemma_seconds_bound(2000, month as int, day as int, 0, 0, 0);
    }
    match midnight {
        Some(s) => {
            match UtcTime::new(s + tod as i64, nanos) {
                Some(t) => t,
                None => *now,
            }
        },
        None => *now,
    }
}

/// The reading of the local clock in the year `y`, in seconds since it showed
/// 1970-01-01 00:00:00.
pub open spec fn reading_in_year(month: int, day: int, tod: int, y: int) -> int {
    seconds_at(y, month, day, 0, 0, 0) + tod
}

/// `asked` is what the machine's time zone answered about a yearless reading: for
/// each of the tried years that has the date, about the reading in that year.
pub open spec fn asked_of_years(
    asked: Seq<Option<LocalReading>>,
    month: int,
    day: int,
    tod: int,
    now: int,
) -> bool {
    &&& asked.len() == YEARS_TRIED
    &&& forall|k: int|
        0 <= k < YEARS_TRIED ==> match #[trigger] asked[k] {
            Some(a) => answers_when(
                a,
                reading_in_year(month, day, tod, latest_year(now) - k),
            ),
            None => !in_calendar(latest_year(now) - k, month, day, 0, 0, 0),
        }
}

/// The offset that was answered, if the time zone was asked and had one.
pub open spec fn answered(a: Option<LocalReading>) -> Option<i32> {
    match a {
        Some(a) => a.east_then(),
        None => None,
    }
}

/// The offsets that were answered.
pub open spec fn offsets_of(asked: Seq<Option<LocalReading>>) -> Seq<Option<i32>> {
    asked.map_values(|a: Option<LocalReading>| answered(a))
}

/// The offsets of the local clock when it shows the reading in each of the
/// tried years, as far as the machine's time zone has them.
fn local_offsets(month: u32, day: u32, tod: u32, now: &UtcTime) -> (r: Vec<Option<i32>>)
    requires
        tod < 86400,
    ensures
        valid_offsets(r@),
        exists|asked: Seq<Option<LocalReading>>| #[trigger]
            asked_of_years(asked, month as int, day as int, tod as int, now@) && r@ == offsets_of(
                asked,
            ),
{
    let latest: i32 = now.civil_at(0).year + 1;
    let mut offs: Vec<Option<i32>> = Vec::new();
    let ghost mut asked: Seq<Option<LocalReading>> = Seq::empty();
    let mut k: usize = 0;
    while k < YEARS_TRIED
        invariant
            k <= YEARS_TRIED,
            tod < 86400,
            -262143 <= latest <= 262144,
            latest == latest_year(now@),
            offs@.len() == k,
            asked.len() == k,
            forall|j: int|
                0 <= j < k ==> match #[trigger] asked[j] {
                    Some(a) => answers_when(
                        a,
                        reading_in_year(month as int, day as int, tod as int, latest - j),
                    ),
                    None => !in_calendar(latest - j, month as int, day as int, 0, 0, 0),
                },
            forall|j: int| 0 <= j < k ==> #[trigger] offs@[j] == answered(asked[j]),
        decreases YEARS_TRIED - k,
    {
        let year: i32 = latest - k as i32;
        let shown: Option<i64> = seconds_of(
            year,
            month,
            day,
            tod / 3600,
            tod % 3600 / 60,
            tod % 60,
        );
        match shown {
            Some(local) => {
                let a = local_offset_when(local);
                offs.push(a.seconds());
                proof {
                    asked = asked.push(Some(a));
                }
            },
            None => {
                offs.push(None);
                proof {
                    asked = asked.push(None);
                }
            },
        }
        k += 1;
    }
    assert(asked_of_years(asked, month as int, day as int, tod as int, now@));
    assert(offs@ =~= offsets_of(asked));
    assert forall|j: int| 0 <= j < YEARS_TRIED implies ((#[trigger] offs@[j]) matches Some(o)
        ==> valid_offset(o as int)) by {
        assert(offs@[j] == answered(asked[j]));
        assert(asked[j] matches Some(a) ==> answers_when(
            a,
            reading_in_year(month as int, day as int, tod as int, latest_year(now@) - j),
        ));
    }
    offs
}

/// The instant of a moment, given what decides the zone and the year that it
/// does not name.
pub fn settle(m: Moment, zone: i32, now: &UtcTime, offs: &Vec<Option<i32>>) -> (r: UtcTime)
    requires
        valid_moment(m),
        valid_offset(zone as int),
        valid_offsets(offs@),
    ensures
        r@ == settled(m, zone as int, now@, offs@),
{
    let (secs, nanos): (i64, u32) = match m {
        Moment::Exact { secs, nanos } => (secs, nanos),
        Moment::Zoneless { secs, nanos } => (secs - zone as i64, nanos),
        Moment::Yearless { month, day, tod, nanos } => {
            return resolve_no_year(month, day, tod, nanos, now, offs);
        },
    };
    match UtcTime::new(secs, nanos) {
        Some(t) => t,
        None => *now,
    }
}

/// `t` is the instant of the moment by the machine's clock and time zone: a
/// reading without a zone goes by the offset at the moment of asking, and a
/// reading without a year by the clock and the offsets when the local clock shows
/// the reading in each of the tried years.
pub open spec fn settles(m: Moment, t: int) -> bool {
    match m {
        Moment::Exact { secs, nanos } => t == secs * 1_000_000_000 + nanos,
        Moment::Zoneless { secs, nanos } => exists|o: LocalOffset| #[trigger]
            answers(o, None) && t == settled(m, o.east_of_utc(), 0, Seq::empty()),
        Moment::Yearless { month, day, tod, nanos } => exists|
            now: int,
            asked: Seq<Option<LocalReading>>,
        |
            clock_showed(now) && in_range(now) && #[trigger] asked_of_years(
                asked,
                month as int,
                day as int,
                tod as int,
                now,
            ) && t == settled(m, 0, now, offsets_of(asked)),
    }
}

/// No offset in any of the tried years.
fn no_offsets() -> (r: Vec<Option<i32>>)
    ensures
        valid_offsets(r@),
{
    let mut offs: Vec<Option<i32>> = Vec::new();
    while offs.len() < YEARS_TRIED
        invariant
            offs@.len() <= YEARS_TRIED,
            forall|j: int| 0 <= j < offs@.len() ==> (#[trigger] offs@[j]) is None,
        decreases YEARS_TRIED - offs@.len(),
    {
        offs.push(None);
    }
    offs
}

/// The instant of a moment by the machine's clock and time zone.
pub fn place(m: Moment) -> (r: UtcTime)
    requires
        valid_moment(m),
    ensures
        settles(m, r@),
{
    match m {
        Moment::Exact { secs, nanos } => {
            settle(m, 0, &UtcTime::epoch(), &no_offsets())
        },
        Moment::Zoneless { secs, nanos } => {
            let o = local_offset_now();
            let r = settle(m, o.seconds(), &UtcTime::epoch(), &no_offsets());
            assert(answers(o, None));
            r
        },
        Moment::Yearless { month, day, tod, nanos } => {
            let now = utc_now();
            let offs = local_offsets(month, day, tod, &now);
            let r = settle(m, 0, &now, &offs);
            proof {
                let asked = choose|asked: Seq<Option<LocalReading>>| #[trigger]
                    asked_of_years(asked, month as int, day as int, tod as int, now@) && offs@
                        == offsets_of(asked);
                assert(asked_of_years(asked, month as int, day as int, tod as int, now@));
                assert(settled(m, 0, now@, offsets_of(asked)) == r@);
            }
            r
        },
    }
}

proof fn lemma_field_bound(s: Seq<char>, a: int, b: int)
    requires
        0 <= a <= b <= s.len(),
        b - a <= 4,
    ensures
        number(s, a, b) matches Some(n) ==> 0 <= n < 10_000,
        b - a <= 3 ==> (number(s, a, b) matches Some(n) ==> 0 <= n < 1000),
{
    if number(s, a, b) is Some {
        lemma_digits_value_bound(s.subrange(a, b));
        lemma_pow10_monotone(b - a, 4);
        assert(pow10(4) == 10_000 && pow10(3) == 1000) by {
            reveal_with_fuel(pow10, 5);
        }
        if b - a <= 3 {
            lemma_pow10_monotone(b - a, 3);
        }
    }
}

proof fn lemma_date_time_bound(
    y: Option<int>,
    m: Option<int>,
    d: Option<int>,
    h: Option<int>,
    mi: Option<int>,
    s: Option<int>,
)
    requires
        y matches Some(v) ==> 0 <= v <= 9999,
        date_time(y, m, d, h, mi, s) is Some,
    ensures
        -400_000_000_000 <= date_time(y, m, d, h, mi, s)->0 <= 400_000_000_000,
{
    lemma_seconds_bound(y->0, m->0, d->0, h->0, mi->0, s->0);
}

proof fn lemma_offset_bound(s: Seq<char>, sign: int, h: int, m: int)
    requires
        0 <= h,
        h + 2 <= s.len(),
        0 <= m,
        m + 2 <= s.len(),
    ensures
        signed_offset(s, sign, h, m) matches Some(off) ==> valid_offset(off),
{
    lemma_field_bound(s, h, h + 2);
    lemma_field_bound(s, m, m + 2);
}

proof fn lemma_fraction_bound(s: Seq<char>, p: int, n: int)
    requires
        0 <= p,
        0 <= n <= 9,
        n > 0 ==> p + n <= s.len(),
    ensures
        0 <= fraction_nanos(s, p, n) < 1_000_000_000,
{
    let k = if n < 6 {
        n
    } else {
        6
    };
    if n > 0 && number(s, p, p + k) is Some {
        lemma_digits_value_bound(s.subrange(p, p + k));
        let v = number(s, p, p + k)->0;
        assert(pow10(k) * pow10(6 - k) == 1_000_000) by {
            reveal_with_fuel(pow10, 7);
            assert(pow10(0) == 1 && pow10(1) == 10 && pow10(2) == 100 && pow10(3) == 1000);
            assert(pow10(4) == 10_000 && pow10(5) == 100_000 && pow10(6) == 1_000_000);
            if k == 1 {
            } else if k == 2 {
            } else if k == 3 {
            } else if k == 4 {
            } else if k == 5 {
            }
        }
        lemma_pow10_monotone(0, 6 - k);
        assert(v * pow10(6 - k) < 1_000_000 && v * pow10(6 - k) >= 0) by (nonlinear_arith)
            requires
                0 <= v < pow10(k),
                pow10(k) * pow10(6 - k) == 1_000_000,
                pow10(6 - k) >= 1,
        ;
    }
}

proof fn lemma_run_bound(s: Seq<char>, p: int, max: int)
    requires
        0 <= p <= s.len(),
        0 <= max,
    ensures
        0 <= digit_run(s, p, max) <= max,
        p + digit_run(s, p, max) <= s.len(),
    decreases max,
{
    if 0 < max && p < s.len() && crate::classes::digit(s[p]) {
        lemma_run_bound(s, p + 1, max - 1);
    }
}

proof fn lemma_zone_bound(s: Seq<char>, q: int)
    requires
        0 <= q <= s.len(),
    ensures
        zone_at(s, q) matches Some(z) ==> valid_offset(z.offset_of()),
        0 <= zone_len(s, q),
        q + zone_len(s, q) <= s.len(),
{
    reveal_strlit("sdd:dd");
    reveal_strlit("sdddd");
    reveal_strlit("sdd");
    let n = zone_len(s, q);
    if n == 5 || n == 6 {
        lemma_offset_bound(s, q, q + 1, q + n - 2);
    }
}

/// A timestamp that is read names a moment that can be placed, and its span
/// lies in the line.
pub proof fn lemma_reading_valid(f: DetectedFormat, s: Seq<char>, i: int)
    requires
        here(f, s, i),
        reading(f, s, i) is Some,
    ensures
        valid_moment(reading(f, s, i)->0.moment),
        0 <= i,
        reading(f, s, i)->0.start == i,
        i <= reading(f, s, i)->0.end <= s.len(),
{
    match f {
        DetectedFormat::Iso => lemma_iso_valid(s, i),
        DetectedFormat::ApacheCtf => {
            reveal_strlit("[www www ");
            reveal_strlit(" dd:dd:dd dddd]");
            lemma_run_bound(s, day_start(s, i + 9), 2);
            let e = day_end(s, i + 9);
            lemma_field_bound(s, e + 10, e + 14);
            lemma_date_time_bound(
                number(s, e + 10, e + 14),
                crate::detectors::month_of(s.subrange(i + 5, i + 8)),
                number(s, day_start(s, i + 9), e),
                number(s, e + 1, e + 3),
                number(s, e + 4, e + 6),
                number(s, e + 7, e + 9),
            );
        },
        DetectedFormat::ApacheClf => {
            reveal_strlit("dd/www/dddd:dd:dd:dd sdddd");
            lemma_field_bound(s, i + 7, i + 11);
            lemma_offset_bound(s, i + 21, i + 22, i + 24);
            lemma_date_time_bound(
                number(s, i + 7, i + 11),
                crate::detectors::month_of(s.subrange(i + 3, i + 6)),
                number(s, i, i + 2),
                number(s, i + 12, i + 14),
                number(s, i + 15, i + 17),
                number(s, i + 18, i + 20),
            );
        },
        DetectedFormat::Epoch => {},
        DetectedFormat::SyslogNoYear => {
            reveal_strlit("aaa ");
            reveal_strlit(" dd:dd:dd");
            lemma_run_bound(s, day_start(s, 4), 2);
        },
        DetectedFormat::HealthApp => {
            reveal_strlit("dddddddd-dd:dd:dd:ddd");
            lemma_field_bound(s, i, i + 4);
            lemma_field_bound(s, i + 18, i + 21);
            lemma_date_time_bound(
                number(s, i, i + 4),
                number(s, i + 4, i + 6),
                number(s, i + 6, i + 8),
                number(s, i + 9, i + 11),
                number(s, i + 12, i + 14),
                number(s, i + 15, i + 17),
            );
        },
        DetectedFormat::Android => {
            reveal_strlit("dd-dd dd:dd:dd.ddd");
            lemma_field_bound(s, i + 15, i + 18);
        },
        DetectedFormat::Proxifier => {
            reveal_strlit("[dd.dd dd:dd:dd]");
        },
    }
}

proof fn lemma_iso_valid(s: Seq<char>, i: int)
    requires
        here(DetectedFormat::Iso, s, i),
        reading(DetectedFormat::Iso, s, i) is Some,
    ensures
        valid_moment(reading(DetectedFormat::Iso, s, i)->0.moment),
        0 <= i,
        i <= reading(DetectedFormat::Iso, s, i)->0.end <= s.len(),
{
    reveal_strlit("dddd-dd-ddtdd:dd:dd");
    let p = i + 19;
    if p < s.len() {
        lemma_run_bound(s, p + 1, 9);
    }
    lemma_field_bound(s, i, i + 4);
    lemma_date_time_bound(
        number(s, i, i + 4),
        number(s, i + 5, i + 7),
        number(s, i + 8, i + 10),
        number(s, i + 11, i + 13),
        number(s, i + 14, i + 16),
        number(s, i + 17, i + 19),
    );
    lemma_fraction_bound(s, i + 20, fraction_len(s, p));
    lemma_zone_bound(s, crate::detectors::fraction_end(s, p));
}

} // verus!
