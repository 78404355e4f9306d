//! Instants and the calendar: a UTC instant with nanosecond resolution, its
//! civil date and time at an offset from UTC, and the clock and time zone of
//! the machine.

use chrono::{DateTime, Datelike, FixedOffset, Local, NaiveDate, Timelike, Utc};
use vstd::prelude::*;

verus! {

/// Nanoseconds in a second.
pub const NANOS_PER_SEC: u32 = 1_000_000_000;

/// The earliest second that an instant can hold: the start of the year -262143.
pub const MIN_SECS: i64 = -8_334_601_228_800;

/// The latest second that an instant can hold: the end of the year 262142.
pub const MAX_SECS: i64 = 8_210_266_876_799;

// ---------------------------------------------------------------------------
// The proleptic Gregorian calendar
// ---------------------------------------------------------------------------

pub open spec fn leap_year(y: int) -> bool {
    y % 4 == 0 && (y % 100 != 0 || y % 400 == 0)
}

pub open spec fn days_in_month(y: int, m: int) -> int {
    if m == 2 {
        if leap_year(y) {
            29
        } else {
            28
        }
    } else if m == 4 || m == 6 || m == 9 || m == 11 {
        30
    } else {
        31
    }
}

/// There is a month `m` of the year `y`, and it has a day `d`.
pub open spec fn valid_date(y: int, m: int, d: int) -> bool {
    1 <= m <= 12 && 1 <= d <= days_in_month(y, m)
}

/// Days of the year `y` before the first day of the month `m`.
pub open spec fn days_before_month(y: int, m: int) -> int
    decreases m,
{
    if m <= 1 {
        0
    } else {
        days_before_month(y, m - 1) + days_in_month(y, m - 1)
    }
}

/// Days before the first day of the year `y`, counted from the start of year 1.
pub open spec fn days_before_year(y: int) -> int {
    365 * (y - 1) + (y - 1) / 4 - (y - 1) / 100 + (y - 1) / 400
}

/// The number of a date, where the first day of year 1 has the number 1.
pub open spec fn day_number(y: int, m: int, d: int) -> int {
    days_before_year(y) + days_before_month(y, m) + d
}

/// The number of 1970-01-01.
pub const EPOCH_DAY: i32 = 719_163;

/// An hour, a minute and a second of a day.
pub open spec fn valid_clock(h: int, mi: int, s: int) -> bool {
    0 <= h < 24 && 0 <= mi < 60 && 0 <= s < 60
}

/// Seconds from 1970-01-01 00:00:00 to the date and time, both read on the
/// same clock.
pub open spec fn seconds_at(y: int, m: int, d: int, h: int, mi: int, s: int) -> int {
    (day_number(y, m, d) - EPOCH_DAY) * 86400 + h * 3600 + mi * 60 + s
}

/// There is such a date and time, in a year that an instant can hold.
pub open spec fn in_calendar(y: int, m: int, d: int, h: int, mi: int, s: int) -> bool {
    -262143 <= y <= 262142 && valid_date(y, m, d) && valid_clock(h, mi, s)
}

/// A date, a time of day and a weekday (0 is Sunday).
#[derive(Clone, Copy)]
pub struct Civil {
    pub year: i32,
    pub month: u32,
    pub day: u32,
    pub hour: u32,
    pub minute: u32,
    pub second: u32,
    pub weekday: u32,
}

/// `c` is the date and time that a clock shows `local` seconds after it showed
/// 1970-01-01 00:00:00.
pub open spec fn shows(c: Civil, local: int) -> bool {
    &&& valid_date(c.year as int, c.month as int, c.day as int)
    &&& valid_clock(c.hour as int, c.minute as int, c.second as int)
    &&& seconds_at(
        c.year as int,
        c.month as int,
        c.day as int,
        c.hour as int,
        c.minute as int,
        c.second as int,
    ) == local
    &&& c.weekday == day_number(c.year as int, c.month as int, c.day as int) % 7
}

/// The date and time that a clock shows `local` seconds after it showed
/// 1970-01-01 00:00:00.
pub open spec fn civil(local: int) -> Civil {
    choose|c: Civil| shows(c, local)
}

/// An offset from UTC is less than a day.
pub open spec fn valid_offset(off: int) -> bool {
    -86400 < off < 86400
}

proof fn lemma_month_table(y: int)
    ensures
        days_before_month(y, 1) == 0,
        days_before_month(y, 2) == 31,
        days_before_month(y, 3) == 31 + days_in_month(y, 2),
        days_before_month(y, 4) == 62 + days_in_month(y, 2),
        days_before_month(y, 5) == 92 + days_in_month(y, 2),
        days_before_month(y, 6) == 123 + days_in_month(y, 2),
        days_before_month(y, 7) == 153 + days_in_month(y, 2),
        days_before_month(y, 8) == 184 + days_in_month(y, 2),
        days_before_month(y, 9) == 215 + days_in_month(y, 2),
        days_before_month(y, 10) == 245 + days_in_month(y, 2),
        days_before_month(y, 11) == 276 + days_in_month(y, 2),
        days_before_month(y, 12) == 306 + days_in_month(y, 2),
        days_before_month(y, 13) == 337 + days_in_month(y, 2),
{
    reveal_with_fuel(days_before_month, 14);
}

proof fn lemma_year_length(y: int)
    ensures
        days_before_year(y + 1) == days_before_year(y) + 337 + days_in_month(y, 2),
{
}

proof fn lemma_year_starts_grow(a: int, b: int)
    requires
        a < b,
    ensures
        days_before_year(a + 1) <= days_before_year(b),
    decreases b - a,
{
    if a + 1 < b {
        lemma_year_starts_grow(a, b - 1);
        lemma_year_length(b - 1);
    }
}

proof fn lemma_day_of_year_bounds(y: int, m: int, d: int)
    requires
        valid_date(y, m, d),
    ensures
        1 <= days_before_month(y, m) + d <= 337 + days_in_month(y, 2),
{
    lemma_month_table(y);
}

/// A later date has a greater number.
pub proof fn lemma_day_number_grows(y1: int, m1: int, d1: int, y2: int, m2: int, d2: int)
    requires
        valid_date(y1, m1, d1),
        valid_date(y2, m2, d2),
        y1 < y2 || (y1 == y2 && (m1 < m2 || (m1 == m2 && d1 < d2))),
    ensures
        day_number(y1, m1, d1) < day_number(y2, m2, d2),
{
    lemma_day_of_year_bounds(y1, m1, d1);
    lemma_day_of_year_bounds(y2, m2, d2);
    if y1 < y2 {
        lemma_year_length(y1);
        lemma_year_starts_grow(y1, y2);
    } else {
        lemma_month_table(y1);
    }
}

/// A day has one date.
proof fn lemma_date_unique(y1: int, m1: int, d1: int, y2: int, m2: int, d2: int)
    requires
        valid_date(y1, m1, d1),
        valid_date(y2, m2, d2),
        day_number(y1, m1, d1) == day_number(y2, m2, d2),
    ensures
        y1 == y2 && m1 == m2 && d1 == d2,
{
    if y1 < y2 || (y1 == y2 && (m1 < m2 || (m1 == m2 && d1 < d2))) {
        lemma_day_number_grows(y1, m1, d1, y2, m2, d2);
    } else if !(y1 == y2 && m1 == m2 && d1 == d2) {
        lemma_day_number_grows(y2, m2, d2, y1, m1, d1);
    }
}

/// A second of the day has one time.
proof fn lemma_time_unique(h1: int, mi1: int, s1: int, h2: int, mi2: int, s2: int)
    requires
        0 <= h1 && 0 <= mi1 < 60 && 0 <= s1 < 60,
        0 <= h2 && 0 <= mi2 < 60 && 0 <= s2 < 60,
        h1 * 3600 + mi1 * 60 + s1 == h2 * 3600 + mi2 * 60 + s2,
    ensures
        h1 == h2 && mi1 == mi2 && s1 == s2,
{
}

/// A clock shows one date and time at a given second.
pub proof fn lemma_shows_unique(a: Civil, b: Civil, local: int)
    requires
        shows(a, local),
        shows(b, local),
    ensures
        a == b,
{
    let na = day_number(a.year as int, a.month as int, a.day as int);
    let nb = day_number(b.year as int, b.month as int, b.day as int);
    let ta = a.hour * 3600 + a.minute * 60 + a.second;
    let tb = b.hour * 3600 + b.minute * 60 + b.second;
    assert(0 <= ta < 86400 && 0 <= tb < 86400);
    assert(na == nb && ta == tb);
    lemma_date_unique(
        a.year as int,
        a.month as int,
        a.day as int,
        b.year as int,
        b.month as int,
        b.day as int,
    );
    lemma_time_unique(
        a.hour as int,
        a.minute as int,
        a.second as int,
        b.hour as int,
        b.minute as int,
        b.second as int,
    );
}

/// The year in which the day with the number `n` falls.
proof fn lemma_year_of_day(n: int) -> (y: int)
    ensures
        days_before_year(y) < n <= days_before_year(y + 1),
    decreases (if n > 1 { n - 1 } else { 1 - n }),
{
    if n == 1 {
        1
    } else if n > 1 {
        let y = lemma_year_of_day(n - 1);
        lemma_year_length(y + 1);
        if n <= days_before_year(y + 1) {
            y
        } else {
            y + 1
        }
    } else {
        let y = lemma_year_of_day(n + 1);
        lemma_year_length(y - 1);
        if days_before_year(y) < n {
            y
        } else {
            y - 1
        }
    }
}

/// The month of the year `y` in which the day `doy` of the year falls.
proof fn lemma_month_of_day(y: int, doy: int) -> (m: int)
    requires
        1 <= doy <= 337 + days_in_month(y, 2),
    ensures
        1 <= m <= 12,
        valid_date(y, m, doy - days_before_month(y, m)),
{
    lemma_month_table(y);
    let feb = days_in_month(y, 2);
    if doy <= 31 {
        1
    } else if doy <= 31 + feb {
        2
    } else if doy <= 62 + feb {
        3
    } else if doy <= 92 + feb {
        4
    } else if doy <= 123 + feb {
        5
    } else if doy <= 153 + feb {
        6
    } else if doy <= 184 + feb {
        7
    } else if doy <= 215 + feb {
        8
    } else if doy <= 245 + feb {
        9
    } else if doy <= 276 + feb {
        10
    } else if doy <= 306 + feb {
        11
    } else {
        12
    }
}

/// A clock shows some date and time at every second that an instant can hold,
/// at every offset.
pub proof fn lemma_civil_shows(local: int)
    requires
        MIN_SECS - 86400 < local < MAX_SECS + 86400,
    ensures
        shows(civil(local), local),
{
    let n = local / 86400 + EPOCH_DAY;
    let y = lemma_year_of_day(n);
    lemma_year_length(y);
    let doy = n - days_before_year(y);
    let m = lemma_month_of_day(y, doy);
    assert(-300_000 <= y <= 300_000);
    let tod = local % 86400;
    let c = Civil {
        year: y as i32,
        month: m as u32,
        day: (doy - days_before_month(y, m)) as u32,
        hour: (tod / 3600) as u32,
        minute: (tod % 3600 / 60) as u32,
        second: (tod % 60) as u32,
        weekday: (n % 7) as u32,
    };
    assert(tod == tod / 3600 * 3600 + tod % 3600 / 60 * 60 + tod % 60);
    assert(shows(c, local));
}

/// The dates of the years 0 to 9999 are well within range.
pub proof fn lemma_seconds_bound(y: int, m: int, d: int, h: int, mi: int, s: int)
    requires
        0 <= y <= 9999,
        valid_date(y, m, d),
        valid_clock(h, mi, s),
    ensures
        -400_000_000_000 <= seconds_at(y, m, d, h, mi, s) <= 400_000_000_000,
{
    lemma_day_of_year_bounds(y, m, d);
}

// ---------------------------------------------------------------------------
// Instants
// ---------------------------------------------------------------------------

/// An instant in UTC with nanosecond resolution. Leap seconds are not
/// represented.
#[derive(Debug, Clone, Copy, PartialEq, Eq, Structural)]
pub struct UtcTime {
    secs: i64,
    nanos: u32,
}

impl View for UtcTime {
    type V = int;

    /// Nanoseconds since 1970-01-01 00:00:00 UTC.
    closed spec fn view(&self) -> int {
        self.secs * 1_000_000_000 + self.nanos
    }
}

/// The whole seconds in a number of nanoseconds, rounded down.
pub open spec fn whole_seconds(t: int) -> int {
    t / 1_000_000_000
}

/// The nanoseconds past the last whole second.
pub open spec fn subsec(t: int) -> int {
    t % 1_000_000_000
}

/// The nanosecond counts that an instant can hold.
pub open spec fn in_range(t: int) -> bool {
    MIN_SECS <= whole_seconds(t) <= MAX_SECS
}

impl UtcTime {
    #[verifier::type_invariant]
    closed spec fn inv(self) -> bool {
        MIN_SECS <= self.secs <= MAX_SECS && self.nanos < NANOS_PER_SEC
    }

    /// The instant `secs` seconds and `nanos` nanoseconds after the epoch;
    /// `None` when the nanoseconds make up a second or the instant is out of
    /// range.
    pub fn new(secs: i64, nanos: u32) -> (r: Option<UtcTime>)
        ensures
            r is Some <==> MIN_SECS <= secs <= MAX_SECS && nanos < NANOS_PER_SEC,
            r matches Some(t) ==> t@ == secs * 1_000_000_000 + nanos,
            r matches Some(t) ==> whole_seconds(t@) == secs && subsec(t@) == nanos,
    {
        if MIN_SECS <= secs && secs <= MAX_SECS && nanos < NANOS_PER_SEC {
            Some(UtcTime { secs, nanos })
        } else {
            None
        }
    }

    /// 1970-01-01 00:00:00 UTC.
    pub fn epoch() -> (r: UtcTime)
        ensures
            r@ == 0,
    {
        UtcTime { secs: 0, nanos: 0 }
    }

    /// Seconds since the epoch, rounded down.
    pub fn seconds(&self) -> (r: i64)
        ensures
            r == whole_seconds(self@),
            in_range(self@),
    {
        proof {
            use_type_invariant(self);
        }
        self.secs
    }

    /// Nanoseconds past the last whole second.
    pub fn subsec_nanos(&self) -> (r: u32)
        ensures
            r == subsec(self@),
            r < NANOS_PER_SEC,
    {
        proof {
            use_type_invariant(self);
        }
        self.nanos
    }

    /// Milliseconds since the epoch, rounded down.
    pub fn millis(&self) -> (r: i64)
        ensures
            r == self@ / 1_000_000,
            in_range(self@),
    {
        proof {
            use_type_invariant(self);
        }
        self.secs * 1000 + (self.nanos / 1_000_000) as i64
    }

    /// Nanoseconds since the epoch, when they fit in 64 bits.
    pub fn nanos_since_epoch(&self) -> (r: Option<i64>)
        ensures
            r == (if i64::MIN <= self@ <= i64::MAX {
                Some(self@ as i64)
            } else {
                None
            }),
    {
        proof {
            use_type_invariant(self);
        }
        let total: i128 = self.secs as i128 * 1_000_000_000 + self.nanos as i128;
        if total < -9_223_372_036_854_775_808 || total > 9_223_372_036_854_775_807 {
            None
        } else {
            Some(total as i64)
        }
    }

    /// Nanoseconds from `earlier` to this instant, negative when `earlier` is
    /// the later one.
    pub fn nanos_since(&self, earlier: &UtcTime) -> (r: i128)
        ensures
            r == self@ - earlier@,
            in_range(self@),
            in_range(earlier@),
    {
        proof {
            use_type_invariant(self);
            use_type_invariant(earlier);
        }
        (self.secs as i128 - earlier.secs as i128) * 1_000_000_000 + (self.nanos as i128
            - earlier.nanos as i128)
    }

    /// The instant `n` nanoseconds later; `None` when it is out of range.
    pub fn plus_nanos(&self, n: u64) -> (r: Option<UtcTime>)
        ensures
            r is Some <==> in_range(self@ + n),
            r matches Some(t) ==> t@ == self@ + n,
    {
        proof {
            use_type_invariant(self);
        }
        let sub: u64 = self.nanos as u64 + n % 1_000_000_000;
        let carry: u64 = sub / 1_000_000_000;
        let secs: i64 = self.secs + (n / 1_000_000_000) as i64 + carry as i64;
        UtcTime::new(secs, (sub % 1_000_000_000) as u32)
    }

    /// The instant `n` seconds earlier; `None` when it is out of range.
    pub fn minus_secs(&self, n: i64) -> (r: Option<UtcTime>)
        ensures
            r is Some <==> in_range(self@ - n * 1_000_000_000),
            r matches Some(t) ==> t@ == self@ - n * 1_000_000_000,
    {
        proof {
            use_type_invariant(self);
        }
        match self.secs.checked_sub(n) {
            Some(secs) => UtcTime::new(secs, self.nanos),
            None => None,
        }
    }

    /// Whether this instant is not after `other`.
    pub fn not_after(&self, other: &UtcTime) -> (r: bool)
        ensures
            r == (self@ <= other@),
    {
        proof {
            use_type_invariant(self);
            use_type_invariant(other);
        }
        self.secs < other.secs || (self.secs == other.secs && self.nanos <= other.nanos)
    }

    /// The date and time of this instant at an offset of `off` seconds east of
    /// UTC.
    pub fn civil_at(&self, off: i32) -> (r: Civil)
        requires
            valid_offset(off as int),
        ensures
            r == civil(whole_seconds(self@) + off),
            shows(r, whole_seconds(self@) + off),
            -262144 <= r.year <= 262143,
    {
        let c = civil_date_time(self.seconds(), off);
        proof {
            let local = whole_seconds(self@) + off;
            lemma_shows_unique(c, civil(local), local);
        }
        c
    }
}

// ---------------------------------------------------------------------------
// Calls into chrono
// ---------------------------------------------------------------------------

/// `DateTime::with_timezone` at a fixed offset, of the instant that
/// `DateTime::from_timestamp` makes of `secs`: the date, the time of day and
/// the weekday there, in the proleptic Gregorian calendar.
#[verifier::external_body]
fn civil_date_time(secs: i64, off: i32) -> (r: Civil)
    requires
        MIN_SECS <= secs <= MAX_SECS,
        valid_offset(off as int),
    ensures
        shows(r, secs + off),
        -262144 <= r.year <= 262143,
{
    let utc = DateTime::from_timestamp(secs, 0).unwrap();
    let t = utc.with_timezone(&FixedOffset::east_opt(off).unwrap());
    Civil {
        year: t.year(),
        month: t.month(),
        day: t.day(),
        hour: t.hour(),
        minute: t.minute(),
        second: t.second(),
        weekday: t.weekday().num_days_from_sunday(),
    }
}

/// `NaiveDate::from_ymd_opt` and `NaiveDate::and_hms_opt`: the date and time
/// as seconds since 1970-01-01 00:00:00 on the same clock; `None` when there
/// is no such date or time, or the year is out of chrono's range.
#[verifier::external_body]
pub(crate) fn seconds_of(y: i32, m: u32, d: u32, h: u32, mi: u32, s: u32) -> (r: Option<i64>)
    ensures
        match r {
            Some(t) => {
                &&& in_calendar(y as int, m as int, d as int, h as int, mi as int, s as int)
                &&& t == seconds_at(y as int, m as int, d as int, h as int, mi as int, s as int)
                &&& MIN_SECS <= t <= MAX_SECS
            },
            None => !in_calendar(y as int, m as int, d as int, h as int, mi as int, s as int),
        },
{
    let date = NaiveDate::from_ymd_opt(y, m, d)?;
    Some(date.and_hms_opt(h, mi, s)?.and_utc().timestamp())
}

/// A reading of the machine's clock. Only `clock_reading` makes one.
pub struct ClockReading {
    secs: i64,
    nanos: u32,
}

impl ClockReading {
    /// The instant, in nanoseconds since the epoch.
    pub closed spec fn instant(&self) -> int {
        self.secs * 1_000_000_000 + self.nanos
    }
}

/// The machine's clock was read, and showed the instant.
pub open spec fn clock_showed(t: int) -> bool {
    exists|c: ClockReading| #[trigger] c.instant() == t
}

/// `Utc::now`: the current instant. Nothing is claimed of it but that it is an
/// instant. chrono panics where the machine's clock stands before 1970.
#[verifier::external_body]
fn clock_reading() -> (r: ClockReading)
    ensures
        0 <= r.secs <= MAX_SECS,
        r.nanos < NANOS_PER_SEC,
{
    let now = Utc::now();
    ClockReading { secs: now.timestamp(), nanos: now.timestamp_subsec_nanos() }
}

/// What the machine's time zone gave as its offset from UTC, with the moment
/// that it was asked about. Only `local_offset_now` and `local_offset_at` make
/// one.
pub struct LocalOffset {
    east: i32,
    about: Ghost<Option<int>>,
}

impl LocalOffset {
    /// Seconds east of UTC.
    pub closed spec fn east_of_utc(&self) -> int {
        self.east as int
    }

    /// The second, counted from the epoch, that the time zone was asked about;
    /// `None` is the moment of asking.
    pub closed spec fn asked_about(&self) -> Option<int> {
        self.about@
    }

    /// Seconds east of UTC.
    pub(crate) fn seconds(&self) -> (r: i32)
        ensures
            r == self.east_of_utc(),
    {
        self.east
    }
}

/// The machine's offset at the moment that the question names: a second, or the
/// moment of asking.
pub open spec fn answers(o: LocalOffset, question: Option<int>) -> bool {
    valid_offset(o.east_of_utc()) && o.asked_about() == question
}

/// What the machine's time zone gave as the offset of the local clock when it
/// shows a reading, with the reading that it was asked about. Only
/// `local_offset_when` makes one.
pub struct LocalReading {
    east: Option<i32>,
    about: Ghost<int>,
}

impl LocalReading {
    /// Seconds east of UTC, where the local clock shows the reading exactly
    /// once.
    pub closed spec fn east_then(&self) -> Option<i32> {
        self.east
    }

    /// The reading, in seconds since the local clock showed 1970-01-01 00:00:00.
    pub closed spec fn asked_about(&self) -> int {
        self.about@
    }

    /// Seconds east of UTC, where the local clock shows the reading exactly
    /// once.
    pub(crate) fn seconds(&self) -> (r: Option<i32>)
        ensures
            r == self.east_then(),
    {
        self.east
    }
}

/// The machine's offset when the local clock shows `local`.
pub open spec fn answers_when(a: LocalReading, local: int) -> bool {
    &&& a.asked_about() == local
    &&& a.east_then() matches Some(off) ==> valid_offset(off as int)
}

/// `Local::now`: the machine's current offset from UTC, in seconds east.
/// Nothing is claimed of it but that it is an offset, and that it is the one
/// of the moment of asking.
#[verifier::external_body]
pub(crate) fn local_offset_now() -> (r: LocalOffset)
    ensures
        answers(r, None),
{
    LocalOffset { east: Local::now().offset().local_minus_utc(), about: Ghost(None) }
}

/// `DateTime::with_timezone` to `Local`: the machine's offset from UTC at the
/// instant. Nothing is claimed of it but that it is an offset, and that it is
/// the one of that instant.
#[verifier::external_body]
pub(crate) fn local_offset_at(secs: i64) -> (r: LocalOffset)
    requires
        MIN_SECS <= secs <= MAX_SECS,
    ensures
        answers(r, Some(secs as int)),
{
    let local = DateTime::from_timestamp(secs, 0).unwrap().with_timezone(&Local);
    LocalOffset { east: local.offset().local_minus_utc(), about: Ghost(Some(secs as int)) }
}

/// `NaiveDateTime::and_local_timezone` with `Local`: the machine's offset from
/// UTC at the moment when a local clock shows `local` seconds past 1970-01-01
/// 00:00:00, where there is exactly one such moment. Nothing is claimed of it
/// but that it is an offset, and that it is the one of that reading.
#[verifier::external_body]
pub(crate) fn local_offset_when(local: i64) -> (r: LocalReading)
    requires
        MIN_SECS <= local <= MAX_SECS,
    ensures
        answers_when(r, local as int),
{
    let shown = DateTime::from_timestamp(local, 0).unwrap().naive_utc();
    let then = shown.and_local_timezone(Local).single();
    LocalReading {
        east: then.map(|t| t.offset().local_minus_utc()),
        about: Ghost(local as int),
    }
}

/// `std::time::SystemTime`: a reading of the machine's clock.
#[verifier::external_type_specification]
#[verifier::external_body]
pub struct ExSystemTime(std::time::SystemTime);

/// `SystemTime::now`: the machine's clock. Nothing is claimed of what it reads.
#[verifier::external_body]
pub(crate) fn system_time() -> (r: std::time::SystemTime) {
    std::time::SystemTime::now()
}

/// The nanoseconds from the Unix epoch to a reading of the machine's clock.
/// Only `nanos_since_epoch` makes one.
pub struct SinceEpoch {
    nanos: Option<u128>,
}

impl SinceEpoch {
    /// The nanoseconds; `None` when the clock was set before the epoch.
    pub closed spec fn count(&self) -> Option<u128> {
        self.nanos
    }

    /// The nanoseconds; `None` when the clock was set before the epoch.
    pub(crate) fn nanos(&self) -> (r: Option<u128>)
        ensures
            r == self.count(),
    {
        self.nanos
    }
}

/// `SystemTime::duration_since` the Unix epoch, in nanoseconds; `None` when the
/// clock was set before it. Nothing is claimed of a reading of the clock.
#[verifier::external_body]
pub(crate) fn nanos_since_epoch(reading: std::time::SystemTime) -> (r: SinceEpoch) {
    let since = reading.duration_since(std::time::UNIX_EPOCH);
    SinceEpoch { nanos: since.ok().map(|d| d.as_nanos()) }
}

/// The current instant.
pub fn utc_now() -> (r: UtcTime)
    ensures
        0 <= whole_seconds(r@) <= MAX_SECS,
        clock_showed(r@),
{
    let c = clock_reading();
    let r = UtcTime { secs: c.secs, nanos: c.nanos };
    assert(c.instant() == r@);
    r
}

} // verus!
