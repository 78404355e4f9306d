//! The timestamp detectors: where in a line each format stands first, and what
//! it says there.

use vstd::prelude::*;

use crate::classes::{boundary, digit, fits, has_shape, is_boundary, is_digit};
use crate::clock::{in_calendar, seconds_at, seconds_of};
use crate::formats::{Aux, DetectedFormat, Moment, Zone, ZoneStyle};
use crate::text::{
    all_digits, ascii_digit, chars_of, copy_range, digits_value, is_ascii_digit, is_white_space,
    lemma_pow10_monotone, lower, lower_chars, number, pow10, read_number, same, white_space,
};

verus! {

broadcast use Zone::lemma_of;

/// What a detector found: the span in characters, the format, the details that
/// rendering needs, and the moment.
pub struct Reading {
    pub start: int,
    pub end: int,
    pub format: DetectedFormat,
    pub aux: Aux,
    pub moment: Moment,
}

// ---------------------------------------------------------------------------
// Parts of timestamps
// ---------------------------------------------------------------------------

/// The number of the month with the three-letter English name, in any case.
pub open spec fn month_of(name: Seq<char>) -> Option<int> {
    let m = lower(name);
    if m == "jan"@ {
        Some(1)
    } else if m == "feb"@ {
        Some(2)
    } else if m == "mar"@ {
        Some(3)
    } else if m == "apr"@ {
        Some(4)
    } else if m == "may"@ {
        Some(5)
    } else if m == "jun"@ {
        Some(6)
    } else if m == "jul"@ {
        Some(7)
    } else if m == "aug"@ {
        Some(8)
    } else if m == "sep"@ {
        Some(9)
    } else if m == "oct"@ {
        Some(10)
    } else if m == "nov"@ {
        Some(11)
    } else if m == "dec"@ {
        Some(12)
    } else {
        None
    }
}

/// The date and time as seconds since 1970-01-01 00:00:00 on the same clock, if
/// every part was read and there is such a date and time.
pub open spec fn date_time(
    y: Option<int>,
    m: Option<int>,
    d: Option<int>,
    h: Option<int>,
    mi: Option<int>,
    s: Option<int>,
) -> Option<int> {
    if y is Some && m is Some && d is Some && h is Some && mi is Some && s is Some && in_calendar(
        y->0,
        m->0,
        d->0,
        h->0,
        mi->0,
        s->0,
    ) {
        Some(seconds_at(y->0, m->0, d->0, h->0, mi->0, s->0))
    } else {
        None
    }
}

/// How many of the characters from `p` on are digits, up to `max` of them.
pub open spec fn digit_run(s: Seq<char>, p: int, max: int) -> int
    decreases max,
{
    if 0 < max && 0 <= p < s.len() && digit(s[p]) {
        1 + digit_run(s, p + 1, max - 1)
    } else {
        0
    }
}

/// Where the digits of a day of the month begin: at `p`, or after one space.
pub open spec fn day_start(s: Seq<char>, p: int) -> int {
    if 0 <= p < s.len() && s[p] == ' ' {
        p + 1
    } else {
        p
    }
}

/// Where the one or two digits of a day of the month end.
pub open spec fn day_end(s: Seq<char>, p: int) -> int {
    day_start(s, p) + digit_run(s, day_start(s, p), 2)
}

/// The offset that a sign, two digits of hours at `h` and two of minutes at `m`
/// stand for.
pub open spec fn signed_offset(s: Seq<char>, sign: int, h: int, m: int) -> Option<int> {
    let hours = number(s, h, h + 2);
    let minutes = number(s, m, m + 2);
    if hours is Some && minutes is Some && hours->0 <= 23 && minutes->0 <= 59 {
        let secs = hours->0 * 3600 + minutes->0 * 60;
        Some(if s[sign] == '-' {
            -secs
        } else {
            secs
        })
    } else {
        None
    }
}

// ---------------------------------------------------------------------------
// ISO-8601, RFC 3339 and log4j (comma millis share the ISO shape)
// ---------------------------------------------------------------------------

/// Digits of the fraction behind the seconds that end at `p`.
pub open spec fn fraction_len(s: Seq<char>, p: int) -> int {
    if 0 <= p < s.len() && (s[p] == '.' || s[p] == ',') {
        digit_run(s, p + 1, 9)
    } else {
        0
    }
}

/// Where the fraction that begins at `p` ends.
pub open spec fn fraction_end(s: Seq<char>, p: int) -> int {
    if fraction_len(s, p) > 0 {
        p + 1 + fraction_len(s, p)
    } else {
        p
    }
}

/// The nanoseconds of the fraction of `n` digits that begin at `p`, to the
/// microsecond.
pub open spec fn fraction_nanos(s: Seq<char>, p: int, n: int) -> int {
    let k = if n < 6 {
        n
    } else {
        6
    };
    match number(s, p, p + k) {
        Some(v) if n > 0 => v * pow10(6 - k) * 1000,
        _ => 0,
    }
}

/// The length of the zone written at `q`: `Z`, `+hh:mm`, `+hhmm`, `+hh`, or
/// nothing.
pub open spec fn zone_len(s: Seq<char>, q: int) -> int {
    if 0 <= q < s.len() && (s[q] == 'Z' || s[q] == 'z') {
        1
    } else if fits(s, q, "sdd:dd"@) {
        6
    } else if fits(s, q, "sdddd"@) {
        5
    } else if fits(s, q, "sdd"@) {
        3
    } else {
        0
    }
}

/// The zone written at `q`. Hours without minutes are not a zone.
pub open spec fn zone_at(s: Seq<char>, q: int) -> Option<Zone> {
    let n = zone_len(s, q);
    if n == 1 {
        Some(
            Zone::of(
                0,
                if s[q] == 'Z' {
                    ZoneStyle::UpperZ
                } else {
                    ZoneStyle::LowerZ
                },
            ),
        )
    } else if n == 6 || n == 5 {
        match signed_offset(s, q, q + 1, q + n - 2) {
            Some(off) => Some(
                Zone::of(off, ZoneStyle::Digits { minus: s[q] == '-', colon: n == 6 }),
            ),
            None => None,
        }
    } else {
        None
    }
}

pub open spec fn iso_here(s: Seq<char>, i: int) -> bool {
    boundary(s, i) && fits(s, i, "dddd-dd-ddtdd:dd:dd"@)
}

pub open spec fn iso_reading(s: Seq<char>, i: int) -> Option<Reading> {
    let local = date_time(
        number(s, i, i + 4),
        number(s, i + 5, i + 7),
        number(s, i + 8, i + 10),
        number(s, i + 11, i + 13),
        number(s, i + 14, i + 16),
        number(s, i + 17, i + 19),
    );
    let frac = fraction_len(s, i + 19);
    let nanos = fraction_nanos(s, i + 20, frac);
    let q = fraction_end(s, i + 19);
    let n = zone_len(s, q);
    let zone = zone_at(s, q);
    if local is None || (n > 0 && zone is None) {
        None
    } else {
        Some(
            Reading {
                start: i,
                end: q + n,
                format: DetectedFormat::Iso,
                aux: Aux::Iso {
                    sep: s[i + 10],
                    frac: frac as u8,
                    mark: if frac > 0 {
                        s[i + 19]
                    } else {
                        '.'
                    },
                    tz: zone,
                },
                moment: match zone {
                    Some(z) => Moment::Exact {
                        secs: (local->0 - z.offset_of()) as i64,
                        nanos: nanos as u32,
                    },
                    None => Moment::Zoneless { secs: local->0 as i64, nanos: nanos as u32 },
                },
            },
        )
    }
}

// ---------------------------------------------------------------------------
// Apache: [Thu Jun 09 06:07:04 2005]
// ---------------------------------------------------------------------------

pub open spec fn ctf_here(s: Seq<char>, i: int) -> bool {
    &&& fits(s, i, "[www www "@)
    &&& day_start(s, i + 9) < day_end(s, i + 9)
    &&& fits(s, day_end(s, i + 9), " dd:dd:dd dddd]"@)
}

pub open spec fn ctf_reading(s: Seq<char>, i: int) -> Option<Reading> {
    let e = day_end(s, i + 9);
    let secs = date_time(
        number(s, e + 10, e + 14),
        month_of(s.subrange(i + 5, i + 8)),
        number(s, day_start(s, i + 9), e),
        number(s, e + 1, e + 3),
        number(s, e + 4, e + 6),
        number(s, e + 7, e + 9),
    );
    match secs {
        Some(t) => Some(
            Reading {
                start: i,
                end: e + 15,
                format: DetectedFormat::ApacheCtf,
                aux: Aux::Unit,
                moment: Moment::Zoneless { secs: t as i64, nanos: 0 },
            },
        ),
        None => None,
    }
}

// ---------------------------------------------------------------------------
// Apache common log: 10/Jun/2005:06:07:04 +0000
// ---------------------------------------------------------------------------

pub open spec fn clf_here(s: Seq<char>, i: int) -> bool {
    fits(s, i, "dd/www/dddd:dd:dd:dd sdddd"@) && boundary(s, i + 26)
}

pub open spec fn clf_reading(s: Seq<char>, i: int) -> Option<Reading> {
    let local = date_time(
        number(s, i + 7, i + 11),
        month_of(s.subrange(i + 3, i + 6)),
        number(s, i, i + 2),
        number(s, i + 12, i + 14),
        number(s, i + 15, i + 17),
        number(s, i + 18, i + 20),
    );
    let off = signed_offset(s, i + 21, i + 22, i + 24);
    if local is Some && off is Some {
        Some(
            Reading {
                start: i,
                end: i + 26,
                format: DetectedFormat::ApacheClf,
                aux: Aux::Clf {
                    tz: Zone::of(
                        off->0,
                        ZoneStyle::Digits { minus: s[i + 21] == '-', colon: false },
                    ),
                },
                moment: Moment::Exact { secs: (local->0 - off->0) as i64, nanos: 0 },
            },
        )
    } else {
        None
    }
}

// ---------------------------------------------------------------------------
// Numeric epoch: only a standalone digit token of plausible length and value
// ---------------------------------------------------------------------------

/// A token may begin at `i`: at the start of the line, or behind a space or tab.
pub open spec fn token_start(s: Seq<char>, i: int) -> bool {
    i == 0 || (0 < i <= s.len() && (s[i - 1] == ' ' || s[i - 1] == '\t'))
}

/// A token may end before `j`: at the end of the line, or before a space or tab.
pub open spec fn token_end(s: Seq<char>, j: int) -> bool {
    j == s.len() || (0 <= j < s.len() && (s[j] == ' ' || s[j] == '\t'))
}

/// Where the decimal digits that begin at `i` end.
pub open spec fn digits_end(s: Seq<char>, i: int) -> int
    decreases s.len() - i,
{
    if 0 <= i < s.len() && ascii_digit(s[i]) {
        digits_end(s, i + 1)
    } else {
        i
    }
}

/// Up to ten digits are seconds between 1973 and 2038, more of them are
/// milliseconds between 2001 and 2038.
pub open spec fn plausible_epoch(len: int, v: int) -> bool {
    if len <= 10 {
        100_000_000 <= v <= 2_145_916_800
    } else {
        1_000_000_000_000 <= v <= 2_145_916_800_000
    }
}

pub open spec fn epoch_here(s: Seq<char>, i: int) -> bool {
    let j = digits_end(s, i);
    &&& 0 <= i < s.len()
    &&& token_start(s, i)
    &&& token_end(s, j)
    &&& 9 <= j - i <= 13
    &&& plausible_epoch(j - i, digits_value(s.subrange(i, j)))
}

pub open spec fn epoch_reading(s: Seq<char>, i: int) -> Option<Reading> {
    let j = digits_end(s, i);
    let v = digits_value(s.subrange(i, j));
    Some(
        Reading {
            start: i,
            end: j,
            format: DetectedFormat::Epoch,
            aux: Aux::Unit,
            moment: if j - i <= 10 {
                Moment::Exact { secs: v as i64, nanos: 0 }
            } else {
                Moment::Exact { secs: (v / 1000) as i64, nanos: ((v % 1000) * 1_000_000) as u32 }
            },
        },
    )
}

// ---------------------------------------------------------------------------
// Classic syslog, without a year: Dec 10 06:55:46
// ---------------------------------------------------------------------------

/// A month, a day and a time of day in some year; the year 2000 has every date
/// that any year has.
pub open spec fn yearless(
    m: Option<int>,
    d: Option<int>,
    h: Option<int>,
    mi: Option<int>,
    s: Option<int>,
    nanos: int,
) -> Option<Moment> {
    if date_time(Some(2000), m, d, h, mi, s) is Some {
        Some(
            Moment::Yearless {
                month: m->0 as u32,
                day: d->0 as u32,
                tod: (h->0 * 3600 + mi->0 * 60 + s->0) as u32,
                nanos: nanos as u32,
            },
        )
    } else {
        None
    }
}

pub open spec fn syslog_here(s: Seq<char>, i: int) -> bool {
    let e = day_end(s, 4);
    &&& i == 0
    &&& fits(s, 0, "aaa "@)
    &&& day_start(s, 4) < e
    &&& fits(s, e, " dd:dd:dd"@)
    &&& e + 9 == s.len() || white_space(s[e + 9])
}

pub open spec fn syslog_reading(s: Seq<char>, i: int) -> Option<Reading> {
    let e = day_end(s, 4);
    let moment = yearless(
        month_of(s.subrange(0, 3)),
        number(s, day_start(s, 4), e),
        number(s, e + 1, e + 3),
        number(s, e + 4, e + 6),
        number(s, e + 7, e + 9),
        0,
    );
    match moment {
        Some(moment) => Some(
            Reading {
                start: 0,
                end: e + 9,
                format: DetectedFormat::SyslogNoYear,
                aux: Aux::Unit,
                moment,
            },
        ),
        None => None,
    }
}

// ---------------------------------------------------------------------------
// HealthApp: 20171223-22:15:29:606
// ---------------------------------------------------------------------------

pub open spec fn health_here(s: Seq<char>, i: int) -> bool {
    boundary(s, i) && fits(s, i, "dddddddd-dd:dd:dd:ddd"@) && boundary(s, i + 21)
}

pub open spec fn health_reading(s: Seq<char>, i: int) -> Option<Reading> {
    let secs = date_time(
        number(s, i, i + 4),
        number(s, i + 4, i + 6),
        number(s, i + 6, i + 8),
        number(s, i + 9, i + 11),
        number(s, i + 12, i + 14),
        number(s, i + 15, i + 17),
    );
    let millis = number(s, i + 18, i + 21);
    if secs is Some && millis is Some {
        Some(
            Reading {
                start: i,
                end: i + 21,
                format: DetectedFormat::HealthApp,
                aux: Aux::Unit,
                moment: Moment::Zoneless {
                    secs: secs->0 as i64,
                    nanos: (millis->0 * 1_000_000) as u32,
                },
            },
        )
    } else {
        None
    }
}

// ---------------------------------------------------------------------------
// Proxifier: [10.30 16:49:06]
// ---------------------------------------------------------------------------

pub open spec fn proxifier_here(s: Seq<char>, i: int) -> bool {
    fits(s, i, "[dd.dd dd:dd:dd]"@)
}

pub open spec fn proxifier_reading(s: Seq<char>, i: int) -> Option<Reading> {
    let moment = yearless(
        number(s, i + 1, i + 3),
        number(s, i + 4, i + 6),
        number(s, i + 7, i + 9),
        number(s, i + 10, i + 12),
        number(s, i + 13, i + 15),
        0,
    );
    match moment {
        Some(moment) => Some(
            Reading {
                start: i,
                end: i + 16,
                format: DetectedFormat::Proxifier,
                aux: Aux::Unit,
                moment,
            },
        ),
        None => None,
    }
}

// ---------------------------------------------------------------------------
// Android: 12-17 19:31:36.263
// ---------------------------------------------------------------------------

pub open spec fn android_here(s: Seq<char>, i: int) -> bool {
    boundary(s, i) && fits(s, i, "dd-dd dd:dd:dd.ddd"@) && boundary(s, i + 18)
}

pub open spec fn android_reading(s: Seq<char>, i: int) -> Option<Reading> {
    let millis = number(s, i + 15, i + 18);
    let moment = yearless(
        number(s, i, i + 2),
        number(s, i + 3, i + 5),
        number(s, i + 6, i + 8),
        number(s, i + 9, i + 11),
        number(s, i + 12, i + 14),
        millis->0 * 1_000_000,
    );
    if millis is Some && moment is Some {
        Some(
            Reading {
                start: i,
                end: i + 18,
                format: DetectedFormat::Android,
                aux: Aux::Unit,
                moment: moment->0,
            },
        )
    } else {
        None
    }
}

// ---------------------------------------------------------------------------
// The chain
// ---------------------------------------------------------------------------

/// A timestamp of the format stands in the line at position `i`.
pub open spec fn here(f: DetectedFormat, s: Seq<char>, i: int) -> bool {
    match f {
        DetectedFormat::Iso => iso_here(s, i),
        DetectedFormat::ApacheCtf => ctf_here(s, i),
        DetectedFormat::ApacheClf => clf_here(s, i),
        DetectedFormat::Epoch => epoch_here(s, i),
        DetectedFormat::SyslogNoYear => syslog_here(s, i),
        DetectedFormat::HealthApp => health_here(s, i),
        DetectedFormat::Android => android_here(s, i),
        DetectedFormat::Proxifier => proxifier_here(s, i),
    }
}

/// What a timestamp of the format at position `i` says; `None` when its parts
/// name no date and time.
pub open spec fn reading(f: DetectedFormat, s: Seq<char>, i: int) -> Option<Reading> {
    match f {
        DetectedFormat::Iso => iso_reading(s, i),
        DetectedFormat::ApacheCtf => ctf_reading(s, i),
        DetectedFormat::ApacheClf => clf_reading(s, i),
        DetectedFormat::Epoch => epoch_reading(s, i),
        DetectedFormat::SyslogNoYear => syslog_reading(s, i),
        DetectedFormat::HealthApp => health_reading(s, i),
        DetectedFormat::Android => android_reading(s, i),
        DetectedFormat::Proxifier => proxifier_reading(s, i),
    }
}

/// The first position from `i` on where a timestamp of the format stands.
pub open spec fn first_from(f: DetectedFormat, s: Seq<char>, i: int) -> Option<int>
    decreases s.len() + 1 - i,
{
    if i > s.len() {
        None
    } else if here(f, s, i) {
        Some(i)
    } else {
        first_from(f, s, i + 1)
    }
}

/// What one detector finds in a line: the first timestamp of its format counts,
/// whether or not it names a date and time.
pub open spec fn found(f: DetectedFormat, s: Seq<char>) -> Option<Reading> {
    match first_from(f, s, 0) {
        Some(i) => reading(f, s, i),
        None => None,
    }
}

/// The detectors in the order in which they are tried, most specific first.
pub open spec fn detector(k: int) -> DetectedFormat {
    if k == 0 {
        DetectedFormat::Iso
    } else if k == 1 {
        DetectedFormat::ApacheCtf
    } else if k == 2 {
        DetectedFormat::ApacheClf
    } else if k == 3 {
        DetectedFormat::Epoch
    } else if k == 4 {
        DetectedFormat::SyslogNoYear
    } else if k == 5 {
        DetectedFormat::HealthApp
    } else if k == 6 {
        DetectedFormat::Proxifier
    } else {
        DetectedFormat::Android
    }
}

/// What the detectors from the `k`th on find: the first find counts.
pub open spec fn scan_from(s: Seq<char>, k: int) -> Option<Reading>
    decreases 8 - k,
{
    if k >= 8 {
        None
    } else if found(detector(k), s) is Some {
        found(detector(k), s)
    } else {
        scan_from(s, k + 1)
    }
}

/// The timestamp that is detected in a line.
pub open spec fn scan(s: Seq<char>) -> Option<Reading> {
    scan_from(s, 0)
}

// ---------------------------------------------------------------------------
// Reading parts
// ---------------------------------------------------------------------------

spec fn as_int(n: Option<u64>) -> Option<int> {
    match n {
        Some(n) => Some(n as int),
        None => None,
    }
}

proof fn lemma_pow10_values()
    ensures
        pow10(0) == 1,
        pow10(1) == 10,
        pow10(2) == 100,
        pow10(3) == 1000,
        pow10(4) == 10_000,
        pow10(5) == 100_000,
        pow10(6) == 1_000_000,
        pow10(9) == 1_000_000_000,
{
    reveal_with_fuel(pow10, 10);
}

/// Reads a field of up to nine digits.
fn field(cs: &Vec<char>, from: usize, to: usize) -> (r: Option<u64>)
    requires
        from <= to <= cs@.len(),
        to - from <= 9,
    ensures
        as_int(r) == number(cs@, from as int, to as int),
        r matches Some(n) ==> n < 1_000_000_000,
        to - from <= 4 ==> (r matches Some(n) ==> n < 10_000),
        to - from <= 2 ==> (r matches Some(n) ==> n < 100),
        to - from <= 3 ==> (r matches Some(n) ==> n < 1000),
{
    let r = read_number(cs, from, to);
    proof {
        lemma_pow10_values();
        lemma_pow10_monotone(to - from, 9);
        if to - from <= 4 {
            lemma_pow10_monotone(to - from, 4);
        }
        if to - from <= 3 {
            lemma_pow10_monotone(to - from, 3);
        }
        if to - from <= 2 {
            lemma_pow10_monotone(to - from, 2);
        }
    }
    r
}

fn month_from(name: &Vec<char>) -> (r: Option<u64>)
    ensures
        as_int(r) == month_of(name@),
        r matches Some(m) ==> m <= 12,
{
    let m = lower_chars(name);
    if same(&m, "jan") {
        Some(1)
    } else if same(&m, "feb") {
        Some(2)
    } else if same(&m, "mar") {
        Some(3)
    } else if same(&m, "apr") {
        Some(4)
    } else if same(&m, "may") {
        Some(5)
    } else if same(&m, "jun") {
        Some(6)
    } else if same(&m, "jul") {
        Some(7)
    } else if same(&m, "aug") {
        Some(8)
    } else if same(&m, "sep") {
        Some(9)
    } else if same(&m, "oct") {
        Some(10)
    } else if same(&m, "nov") {
        Some(11)
    } else if same(&m, "dec") {
        Some(12)
    } else {
        None
    }
}

spec fn small(n: Option<u64>) -> bool {
    n matches Some(v) ==> v < 10_000
}

fn date_time_of(
    y: Option<u64>,
    m: Option<u64>,
    d: Option<u64>,
    h: Option<u64>,
    mi: Option<u64>,
    s: Option<u64>,
) -> (r: Option<i64>)
    requires
        small(y),
        small(m),
        small(d),
        small(h),
        small(mi),
        small(s),
    ensures
        match r {
            Some(t) => {
                &&& date_time(as_int(y), as_int(m), as_int(d), as_int(h), as_int(mi), as_int(s))
                    == Some(t as int)
                &&& -8_400_000_000_000 <= t <= 8_400_000_000_000
            },
            None => date_time(
                as_int(y),
                as_int(m),
                as_int(d),
                as_int(h),
                as_int(mi),
                as_int(s),
            ) is None,
        },
{
    seconds_of(y? as i32, m? as u32, d? as u32, h? as u32, mi? as u32, s? as u32)
}

/// The number of digits from `p` on, up to `max` of them.
pub fn count_digits(cs: &Vec<char>, p: usize, max: usize) -> (r: usize)
    requires
        p <= cs@.len(),
    ensures
        r == digit_run(cs@, p as int, max as int),
        r <= max,
        p + r <= cs@.len(),
    decreases max,
{
    if max > 0 && p < cs.len() && is_digit(cs[p]) {
        1 + count_digits(cs, p + 1, max - 1)
    } else {
        0
    }
}

/// Where the digits of a day of the month begin and end.
fn day_span(cs: &Vec<char>, p: usize) -> (r: (usize, usize))
    requires
        p <= cs@.len(),
    ensures
        r.0 == day_start(cs@, p as int),
        r.1 == day_end(cs@, p as int),
        p <= r.0 <= r.1 <= cs@.len(),
        r.1 - r.0 <= 2,
{
    let start: usize = if p < cs.len() && cs[p] == ' ' {
        p + 1
    } else {
        p
    };
    (start, start + count_digits(cs, start, 2))
}

fn read_offset(cs: &Vec<char>, sign: usize, h: usize, m: usize) -> (r: Option<i32>)
    requires
        sign < h <= m,
        m + 2 <= cs@.len(),
    ensures
        match r {
            Some(off) => signed_offset(cs@, sign as int, h as int, m as int) == Some(off as int)
                && -86400 < off < 86400,
            None => signed_offset(cs@, sign as int, h as int, m as int) is None,
        },
{
    assert(m + 2 <= cs.len());
    let hours: u64 = field(cs, h, h + 2)?;
    let minutes: u64 = field(cs, m, m + 2)?;
    if hours > 23 || minutes > 59 {
        return None;
    }
    let secs: i32 = hours as i32 * 3600 + minutes as i32 * 60;
    if cs[sign] == '-' {
        Some(-secs)
    } else {
        Some(secs)
    }
}

/// What a detector found, with the span in characters.
#[derive(Clone, Copy)]
pub struct Found {
    pub start: usize,
    pub end: usize,
    pub format: DetectedFormat,
    pub aux: Aux,
    pub moment: Moment,
}

impl View for Found {
    type V = Reading;

    open spec fn view(&self) -> Reading {
        Reading {
            start: self.start as int,
            end: self.end as int,
            format: self.format,
            aux: self.aux,
            moment: self.moment,
        }
    }
}

/// `r` is what the text says.
pub open spec fn tells(r: Option<Found>, text: Option<Reading>) -> bool {
    match r {
        Some(f) => text == Some(f@),
        None => text is None,
    }
}

// ---------------------------------------------------------------------------
// Shapes
// ---------------------------------------------------------------------------

/// The fixed shapes of the patterns, as characters.
struct Shapes {
    iso: Vec<char>,
    zone_colon: Vec<char>,
    zone_digits: Vec<char>,
    zone_hours: Vec<char>,
    ctf_head: Vec<char>,
    ctf_tail: Vec<char>,
    clf: Vec<char>,
    syslog_head: Vec<char>,
    syslog_tail: Vec<char>,
    health: Vec<char>,
    proxifier: Vec<char>,
    android: Vec<char>,
}

impl Shapes {
    spec fn wf(self) -> bool {
        &&& self.iso@ == "dddd-dd-ddtdd:dd:dd"@
        &&& self.zone_colon@ == "sdd:dd"@
        &&& self.zone_digits@ == "sdddd"@
        &&& self.zone_hours@ == "sdd"@
        &&& self.ctf_head@ == "[www www "@
        &&& self.ctf_tail@ == " dd:dd:dd dddd]"@
        &&& self.clf@ == "dd/www/dddd:dd:dd:dd sdddd"@
        &&& self.syslog_head@ == "aaa "@
        &&& self.syslog_tail@ == " dd:dd:dd"@
        &&& self.health@ == "dddddddd-dd:dd:dd:ddd"@
        &&& self.proxifier@ == "[dd.dd dd:dd:dd]"@
        &&& self.android@ == "dd-dd dd:dd:dd.ddd"@
    }

    fn new() -> (r: Shapes)
        ensures
            r.wf(),
    {
        Shapes {
            iso: chars_of("dddd-dd-ddtdd:dd:dd"),
            zone_colon: chars_of("sdd:dd"),
            zone_digits: chars_of("sdddd"),
            zone_hours: chars_of("sdd"),
            ctf_head: chars_of("[www www "),
            ctf_tail: chars_of(" dd:dd:dd dddd]"),
            clf: chars_of("dd/www/dddd:dd:dd:dd sdddd"),
            syslog_head: chars_of("aaa "),
            syslog_tail: chars_of(" dd:dd:dd"),
            health: chars_of("dddddddd-dd:dd:dd:ddd"),
            proxifier: chars_of("[dd.dd dd:dd:dd]"),
            android: chars_of("dd-dd dd:dd:dd.ddd"),
        }
    }
}

proof fn lemma_shape_lengths()
    ensures
        "dddd-dd-ddtdd:dd:dd"@.len() == 19,
        "sdd:dd"@.len() == 6,
        "sdddd"@.len() == 5,
        "sdd"@.len() == 3,
        "[www www "@.len() == 9,
        " dd:dd:dd dddd]"@.len() == 15,
        "dd/www/dddd:dd:dd:dd sdddd"@.len() == 26,
        "aaa "@.len() == 4,
        " dd:dd:dd"@.len() == 9,
        "dddddddd-dd:dd:dd:ddd"@.len() == 21,
        "[dd.dd dd:dd:dd]"@.len() == 16,
        "dd-dd dd:dd:dd.ddd"@.len() == 18,
{
    reveal_strlit("dddd-dd-ddtdd:dd:dd");
    reveal_strlit("sdd:dd");
    reveal_strlit("sdddd");
    reveal_strlit("sdd");
    reveal_strlit("[www www ");
    reveal_strlit(" dd:dd:dd dddd]");
    reveal_strlit("dd/www/dddd:dd:dd:dd sdddd");
    reveal_strlit("aaa ");
    reveal_strlit(" dd:dd:dd");
    reveal_strlit("dddddddd-dd:dd:dd:ddd");
    reveal_strlit("[dd.dd dd:dd:dd]");
    reveal_strlit("dd-dd dd:dd:dd.ddd");
}

// ---------------------------------------------------------------------------
// Where a format stands
// ---------------------------------------------------------------------------

fn epoch_token(cs: &Vec<char>, i: usize) -> (r: Option<(usize, u64)>)
    ensures
        match r {
            Some((j, v)) => {
                &&& epoch_here(cs@, i as int)
                &&& j == digits_end(cs@, i as int)
                &&& j <= cs@.len()
                &&& v == digits_value(cs@.subrange(i as int, j as int))
            },
            None => !epoch_here(cs@, i as int),
        },
{
    if i >= cs.len() {
        return None;
    }
    if !(i == 0 || cs[i - 1] == ' ' || cs[i - 1] == '\t') {
        return None;
    }
    let mut j: usize = i;
    while j < cs.len() && is_ascii_digit(cs[j])
        invariant
            i <= j <= cs@.len(),
            digits_end(cs@, i as int) == digits_end(cs@, j as int),
            all_digits(cs@.subrange(i as int, j as int)),
        decreases cs@.len() - j,
    {
        proof {
            let next = cs@.subrange(i as int, j + 1);
            assert forall|k: int| 0 <= k < next.len() implies ascii_digit(#[trigger] next[k]) by {
                if k < j - i {
                    assert(next[k] == cs@.subrange(i as int, j as int)[k]);
                }
            }
        }
        j += 1;
    }
    if !(j == cs.len() || cs[j] == ' ' || cs[j] == '\t') {
        return None;
    }
    if j - i < 9 || j - i > 13 {
        return None;
    }
    let v: u64 = read_number(cs, i, j)?;
    let plausible = if j - i <= 10 {
        100_000_000 <= v && v <= 2_145_916_800
    } else {
        1_000_000_000_000 <= v && v <= 2_145_916_800_000
    };
    if plausible {
        Some((j, v))
    } else {
        None
    }
}

/// Whether a timestamp of the format stands at position `i`.
fn is_here(f: DetectedFormat, cs: &Vec<char>, i: usize, sh: &Shapes) -> (r: bool)
    requires
        sh.wf(),
        i <= cs@.len(),
    ensures
        r == here(f, cs@, i as int),
{
    proof {
        lemma_shape_lengths();
    }
    match f {
        DetectedFormat::Iso => has_shape(cs, i, &sh.iso) && is_boundary(cs, i),
        DetectedFormat::ApacheCtf => {
            if !has_shape(cs, i, &sh.ctf_head) {
                return false;
            }
            assert(i + 9 <= cs.len());
            let (a, b) = day_span(cs, i + 9);
            a < b && has_shape(cs, b, &sh.ctf_tail)
        },
        DetectedFormat::ApacheClf => {
            if !has_shape(cs, i, &sh.clf) {
                return false;
            }
            assert(i + 26 <= cs.len());
            is_boundary(cs, i + 26)
        },
        DetectedFormat::Epoch => epoch_token(cs, i).is_some(),
        DetectedFormat::SyslogNoYear => {
            if i != 0 || !has_shape(cs, 0, &sh.syslog_head) {
                return false;
            }
            let (a, b) = day_span(cs, 4);
            if !(a < b && has_shape(cs, b, &sh.syslog_tail)) {
                return false;
            }
            assert(b + 9 <= cs.len());
            b + 9 == cs.len() || is_white_space(cs[b + 9])
        },
        DetectedFormat::HealthApp => {
            if !has_shape(cs, i, &sh.health) {
                return false;
            }
            assert(i + 21 <= cs.len());
            is_boundary(cs, i) && is_boundary(cs, i + 21)
        },
        DetectedFormat::Android => {
            if !has_shape(cs, i, &sh.android) {
                return false;
            }
            assert(i + 18 <= cs.len());
            is_boundary(cs, i) && is_boundary(cs, i + 18)
        },
        DetectedFormat::Proxifier => has_shape(cs, i, &sh.proxifier),
    }
}

/// The first position where a timestamp of the format stands.
fn find_first(f: DetectedFormat, cs: &Vec<char>, sh: &Shapes) -> (r: Option<usize>)
    requires
        sh.wf(),
    ensures
        match r {
            Some(i) => first_from(f, cs@, 0) == Some(i as int) && i <= cs@.len() && here(
                f,
                cs@,
                i as int,
            ),
            None => first_from(f, cs@, 0) is None,
        },
{
    let mut i: usize = 0;
    let n: usize = cs.len();
    while i < n
        invariant
            sh.wf(),
            i <= n == cs@.len(),
            first_from(f, cs@, 0) == first_from(f, cs@, i as int),
        decreases n - i,
    {
        if is_here(f, cs, i, sh) {
            return Some(i);
        }
        i += 1;
    }
    if is_here(f, cs, n, sh) {
        return Some(n);
    }
    assert(first_from(f, cs@, n + 1) is None);
    None
}

// ---------------------------------------------------------------------------
// What a timestamp says
// ---------------------------------------------------------------------------

/// The fraction behind the seconds that end at `p`: the number of its digits
/// and its nanoseconds.
fn read_fraction(cs: &Vec<char>, p: usize) -> (r: (usize, u32))
    requires
        p <= cs@.len(),
    ensures
        r.0 == fraction_len(cs@, p as int),
        r.0 <= 9,
        r.0 > 0 ==> p + 1 + r.0 <= cs@.len(),
        r.1 == fraction_nanos(cs@, p + 1, r.0 as int),
        r.1 < 1_000_000_000,
{
    proof {
        lemma_pow10_values();
    }
    if !(p < cs.len() && (cs[p] == '.' || cs[p] == ',')) {
        return (0, 0);
    }
    let n: usize = count_digits(cs, p + 1, 9);
    if n == 0 {
        return (0, 0);
    }
    let k: usize = if n < 6 {
        n
    } else {
        6
    };
    assert(p + 1 + n <= cs.len());
    let nanos: u32 = match read_number(cs, p + 1, p + 1 + k) {
        Some(v) => {
            let scale: u64 = if k == 1 {
                100_000
            } else if k == 2 {
                10_000
            } else if k == 3 {
                1000
            } else if k == 4 {
                100
            } else if k == 5 {
                10
            } else {
                1
            };
            assert(scale == pow10(6 - k));
            assert(v * scale < 1_000_000) by (nonlinear_arith)
                requires
                    v < pow10(k as int),
                    scale * pow10(k as int) == 1_000_000,
                    scale > 0,
            ;
            assert(v * scale == v * pow10(6 - k));
            (v * scale * 1000) as u32
        },
        None => 0,
    };
    (n, nanos)
}

/// The zone written at `q`: its length and, where it is one, the zone.
fn read_zone(cs: &Vec<char>, q: usize, sh: &Shapes) -> (r: (usize, Option<Zone>))
    requires
        sh.wf(),
        q <= cs@.len(),
    ensures
        r.0 == zone_len(cs@, q as int),
        r.1 == zone_at(cs@, q as int),
        q + r.0 <= cs@.len(),
{
    proof {
        lemma_shape_lengths();
    }
    if q < cs.len() && cs[q] == 'Z' {
        (1, Zone::new(0, ZoneStyle::UpperZ))
    } else if q < cs.len() && cs[q] == 'z' {
        (1, Zone::new(0, ZoneStyle::LowerZ))
    } else if has_shape(cs, q, &sh.zone_colon) {
        assert(q + 6 <= cs.len());
        let zone = match read_offset(cs, q, q + 1, q + 4) {
            Some(off) => Zone::new(off, ZoneStyle::Digits { minus: cs[q] == '-', colon: true }),
            None => None,
        };
        (6, zone)
    } else if has_shape(cs, q, &sh.zone_digits) {
        assert(q + 5 <= cs.len());
        let zone = match read_offset(cs, q, q + 1, q + 3) {
            Some(off) => Zone::new(off, ZoneStyle::Digits { minus: cs[q] == '-', colon: false }),
            None => None,
        };
        (5, zone)
    } else if has_shape(cs, q, &sh.zone_hours) {
        (3, None)
    } else {
        (0, None)
    }
}

fn match_iso(cs: &Vec<char>, i: usize, sh: &Shapes) -> (r: Option<Found>)
    requires
        sh.wf(),
        iso_here(cs@, i as int),
    ensures
        tells(r, iso_reading(cs@, i as int)),
{
    proof {
        lemma_shape_lengths();
    }
    assert(i + 19 <= cs.len());
    let local: i64 = date_time_of(
        field(cs, i, i + 4),
        field(cs, i + 5, i + 7),
        field(cs, i + 8, i + 10),
        field(cs, i + 11, i + 13),
        field(cs, i + 14, i + 16),
        field(cs, i + 17, i + 19),
    )?;
    let (frac, nanos) = read_fraction(cs, i + 19);
    let q: usize = if frac > 0 {
        i + 20 + frac
    } else {
        i + 19
    };
    let (n, zone) = read_zone(cs, q, sh);
    if n > 0 && zone.is_none() {
        return None;
    }
    let moment = match zone {
        Some(z) => Moment::Exact { secs: local - z.offset() as i64, nanos },
        None => Moment::Zoneless { secs: local, nanos },
    };
    Some(
        Found {
            start: i,
            end: q + n,
            format: DetectedFormat::Iso,
            aux: Aux::Iso {
                sep: cs[i + 10],
                frac: frac as u8,
                mark: if frac > 0 {
                    cs[i + 19]
                } else {
                    '.'
                },
                tz: zone,
            },
            moment,
        },
    )
}

fn match_apache_ctf(cs: &Vec<char>, i: usize) -> (r: Option<Found>)
    requires
        ctf_here(cs@, i as int),
    ensures
        tells(r, ctf_reading(cs@, i as int)),
{
    proof {
        lemma_shape_lengths();
    }
    assert(i + 9 <= cs.len());
    let (a, e) = day_span(cs, i + 9);
    assert(e + 15 <= cs.len());
    let secs: i64 = date_time_of(
        field(cs, e + 10, e + 14),
        month_from(&copy_range(cs, i + 5, i + 8)),
        field(cs, a, e),
        field(cs, e + 1, e + 3),
        field(cs, e + 4, e + 6),
        field(cs, e + 7, e + 9),
    )?;
    Some(
        Found {
            start: i,
            end: e + 15,
            format: DetectedFormat::ApacheCtf,
            aux: Aux::Unit,
            moment: Moment::Zoneless { secs, nanos: 0 },
        },
    )
}

fn match_apache_clf(cs: &Vec<char>, i: usize) -> (r: Option<Found>)
    requires
        clf_here(cs@, i as int),
    ensures
        tells(r, clf_reading(cs@, i as int)),
{
    proof {
        lemma_shape_lengths();
    }
    assert(i + 26 <= cs.len());
    let local: i64 = date_time_of(
        field(cs, i + 7, i + 11),
        month_from(&copy_range(cs, i + 3, i + 6)),
        field(cs, i, i + 2),
        field(cs, i + 12, i + 14),
        field(cs, i + 15, i + 17),
        field(cs, i + 18, i + 20),
    )?;
    let off: i32 = read_offset(cs, i + 21, i + 22, i + 24)?;
    let tz = Zone::new(off, ZoneStyle::Digits { minus: cs[i + 21] == '-', colon: false })?;
    Some(
        Found {
            start: i,
            end: i + 26,
            format: DetectedFormat::ApacheClf,
            aux: Aux::Clf { tz },
            moment: Moment::Exact { secs: local - off as i64, nanos: 0 },
        },
    )
}

fn match_epoch(cs: &Vec<char>, i: usize) -> (r: Option<Found>)
    requires
        epoch_here(cs@, i as int),
    ensures
        tells(r, epoch_reading(cs@, i as int)),
{
    let (j, v) = epoch_token(cs, i)?;
    let moment = if j - i <= 10 {
        Moment::Exact { secs: v as i64, nanos: 0 }
    } else {
        Moment::Exact { secs: (v / 1000) as i64, nanos: ((v % 1000) * 1_000_000) as u32 }
    };
    Some(Found { start: i, end: j, format: DetectedFormat::Epoch, aux: Aux::Unit, moment })
}

fn yearless_of(
    m: Option<u64>,
    d: Option<u64>,
    h: Option<u64>,
    mi: Option<u64>,
    s: Option<u64>,
    nanos: u32,
) -> (r: Option<Moment>)
    requires
        small(m),
        small(d),
        small(h),
        small(mi),
        small(s),
    ensures
        r == yearless(as_int(m), as_int(d), as_int(h), as_int(mi), as_int(s), nanos as int),
{
    let in_some_year: i64 = date_time_of(Some(2000), m, d, h, mi, s)?;
    Some(
        Moment::Yearless {
            month: m? as u32,
            day: d? as u32,
            tod: h? as u32 * 3600 + mi? as u32 * 60 + s? as u32,
            nanos,
        },
    )
}

fn match_syslog(cs: &Vec<char>) -> (r: Option<Found>)
    requires
        syslog_here(cs@, 0),
    ensures
        tells(r, syslog_reading(cs@, 0)),
{
    proof {
        lemma_shape_lengths();
    }
    let (a, e) = day_span(cs, 4);
    assert(e + 9 <= cs.len());
    let moment = yearless_of(
        month_from(&copy_range(cs, 0, 3)),
        field(cs, a, e),
        field(cs, e + 1, e + 3),
        field(cs, e + 4, e + 6),
        field(cs, e + 7, e + 9),
        0,
    )?;
    Some(
        Found {
            start: 0,
            end: e + 9,
            format: DetectedFormat::SyslogNoYear,
            aux: Aux::Unit,
            moment,
        },
    )
}

fn match_health_app(cs: &Vec<char>, i: usize) -> (r: Option<Found>)
    requires
        health_here(cs@, i as int),
    ensures
        tells(r, health_reading(cs@, i as int)),
{
    proof {
        lemma_shape_lengths();
    }
    assert(i + 21 <= cs.len());
    let secs: i64 = date_time_of(
        field(cs, i, i + 4),
        field(cs, i + 4, i + 6),
        field(cs, i + 6, i + 8),
        field(cs, i + 9, i + 11),
        field(cs, i + 12, i + 14),
        field(cs, i + 15, i + 17),
    )?;
    let millis: u64 = field(cs, i + 18, i + 21)?;
    Some(
        Found {
            start: i,
            end: i + 21,
            format: DetectedFormat::HealthApp,
            aux: Aux::Unit,
            moment: Moment::Zoneless { secs, nanos: millis as u32 * 1_000_000 },
        },
    )
}

fn match_proxifier(cs: &Vec<char>, i: usize) -> (r: Option<Found>)
    requires
        proxifier_here(cs@, i as int),
    ensures
        tells(r, proxifier_reading(cs@, i as int)),
{
    proof {
        lemma_shape_lengths();
    }
    assert(i + 16 <= cs.len());
    let moment = yearless_of(
        field(cs, i + 1, i + 3),
        field(cs, i + 4, i + 6),
        field(cs, i + 7, i + 9),
        field(cs, i + 10, i + 12),
        field(cs, i + 13, i + 15),
        0,
    )?;
    Some(
        Found {
            start: i,
            end: i + 16,
            format: DetectedFormat::Proxifier,
            aux: Aux::Unit,
            moment,
        },
    )
}

fn match_android(cs: &Vec<char>, i: usize) -> (r: Option<Found>)
    requires
        android_here(cs@, i as int),
    ensures
        tells(r, android_reading(cs@, i as int)),
{
    proof {
        lemma_shape_lengths();
    }
    assert(i + 18 <= cs.len());
    let millis: u64 = field(cs, i + 15, i + 18)?;
    let moment = yearless_of(
        field(cs, i, i + 2),
        field(cs, i + 3, i + 5),
        field(cs, i + 6, i + 8),
        field(cs, i + 9, i + 11),
        field(cs, i + 12, i + 14),
        millis as u32 * 1_000_000,
    )?;
    Some(
        Found { start: i, end: i + 18, format: DetectedFormat::Android, aux: Aux::Unit, moment },
    )
}

/// What the detector of the format finds.
fn find_format(f: DetectedFormat, cs: &Vec<char>, sh: &Shapes) -> (r: Option<Found>)
    requires
        sh.wf(),
    ensures
        tells(r, found(f, cs@)),
{
    let i: usize = find_first(f, cs, sh)?;
    match f {
        DetectedFormat::Iso => match_iso(cs, i, sh),
        DetectedFormat::ApacheCtf => match_apache_ctf(cs, i),
        DetectedFormat::ApacheClf => match_apache_clf(cs, i),
        DetectedFormat::Epoch => match_epoch(cs, i),
        DetectedFormat::SyslogNoYear => match_syslog(cs),
        DetectedFormat::HealthApp => match_health_app(cs, i),
        DetectedFormat::Android => match_android(cs, i),
        DetectedFormat::Proxifier => match_proxifier(cs, i),
    }
}

/// The timestamp in a line of characters: the first find of the detectors, most
/// specific first.
pub fn find_timestamp(cs: &Vec<char>) -> (r: Option<Found>)
    ensures
        tells(r, scan(cs@)),
{
    let sh = Shapes::new();
    let mut k: usize = 0;
    while k < 8
        invariant
            sh.wf(),
            k <= 8,
            scan(cs@) == scan_from(cs@, k as int),
        decreases 8 - k,
    {
        let f = if k == 0 {
            DetectedFormat::Iso
        } else if k == 1 {
            DetectedFormat::ApacheCtf
        } else if k == 2 {
            DetectedFormat::ApacheClf
        } else if k == 3 {
            DetectedFormat::Epoch
        } else if k == 4 {
            DetectedFormat::SyslogNoYear
        } else if k == 5 {
            DetectedFormat::HealthApp
        } else if k == 6 {
            DetectedFormat::Proxifier
        } else {
            DetectedFormat::Android
        };
        let r = find_format(f, cs, &sh);
        if r.is_some() {
            return r;
        }
        k += 1;
    }
    None
}

} // verus!
