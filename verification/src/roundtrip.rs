//! Laws of detection and rendering: what is rendered in the place of a
//! timestamp reads back as the same format and the new instant.

use vstd::prelude::*;

use crate::classes::{boundary, digit, fits, fits_mark, word_at};
use crate::clock::{
    civil, in_range, lemma_civil_shows, shows, subsec, valid_clock, valid_offset, whole_seconds,
    Civil,
};
use crate::detectors::{
    android_here, android_reading, clf_here, clf_reading, ctf_here, ctf_reading, date_time, day_end,
    day_start, detector, digit_run, digits_end, epoch_here, epoch_reading, first_from, found,
    fraction_end, fraction_len, fraction_nanos, health_here, health_reading, here, iso_here,
    iso_reading, month_of, proxifier_here, proxifier_reading, reading, scan, scan_from,
    signed_offset, syslog_here, syslog_reading, token_end, token_start, yearless, zone_at, zone_len,
    Reading,
};
use crate::formats::{Aux, DetectedFormat, Moment, Zone, ZoneStyle};
use crate::moments::settled;
use crate::render::{
    android_text, clf_text, clf_zone, clock_text, ctf_text, fraction_digits, health_text,
    iso_date_time, iso_details, iso_text, magnitude, month_name, offset_text, proxifier_text,
    rendered, syslog_text, weekday_name, zone_text,
};
use crate::text::{
    all_digits, ascii_digit, ascii_letter, digits_value, lemma_padded_reads_back,
    lemma_pow10_monotone, lower, number, occurs_at, padded, pow10, signed_padded,
};

verus! {

broadcast use Zone::lemma_of;

// ---------------------------------------------------------------------------
// Pieces of text
// ---------------------------------------------------------------------------

proof fn lemma_two_digits(s: Seq<char>, i: int, n: int)
    requires
        0 <= n < 100,
        occurs_at(s, padded(n, 2), i),
    ensures
        i + 2 <= s.len(),
        number(s, i, i + 2) == Some(n),
        ascii_digit(s[i]),
        ascii_digit(s[i + 1]),
{
    assert(pow10(2) == 100) by {
        reveal_with_fuel(pow10, 3);
    }
    lemma_padded_reads_back(n, 2);
    let t = s.subrange(i, i + 2);
    assert(ascii_digit(t[0]) && ascii_digit(t[1]));
}

proof fn lemma_three_digits(s: Seq<char>, i: int, n: int)
    requires
        0 <= n < 1000,
        occurs_at(s, padded(n, 3), i),
    ensures
        i + 3 <= s.len(),
        number(s, i, i + 3) == Some(n),
        ascii_digit(s[i]),
        ascii_digit(s[i + 1]),
        ascii_digit(s[i + 2]),
{
    assert(pow10(3) == 1000) by {
        reveal_with_fuel(pow10, 4);
    }
    lemma_padded_reads_back(n, 3);
    let t = s.subrange(i, i + 3);
    assert(ascii_digit(t[0]) && ascii_digit(t[1]) && ascii_digit(t[2]));
}

/// A year from 1000 to 9999 is written with four digits.
proof fn lemma_plain_year(y: int)
    requires
        1000 <= y <= 9999,
    ensures
        signed_padded(y, 1) == padded(y, 4),
{
    reveal_with_fuel(padded, 5);
    assert(signed_padded(y, 1) =~= padded(y, 4));
}

proof fn lemma_four_digits(s: Seq<char>, i: int, n: int)
    requires
        0 <= n < 10_000,
        occurs_at(s, padded(n, 4), i),
    ensures
        i + 4 <= s.len(),
        number(s, i, i + 4) == Some(n),
        ascii_digit(s[i]),
        ascii_digit(s[i + 1]),
        ascii_digit(s[i + 2]),
        ascii_digit(s[i + 3]),
{
    assert(pow10(4) == 10_000) by {
        reveal_with_fuel(pow10, 5);
    }
    lemma_padded_reads_back(n, 4);
    let t = s.subrange(i, i + 4);
    assert(ascii_digit(t[0]) && ascii_digit(t[1]) && ascii_digit(t[2]) && ascii_digit(t[3]));
}

proof fn lemma_clock_text(s: Seq<char>, i: int, c: Civil)
    requires
        valid_clock(c.hour as int, c.minute as int, c.second as int),
        occurs_at(s, clock_text(c), i),
    ensures
        clock_text(c).len() == 8,
        i + 8 <= s.len(),
        number(s, i, i + 2) == Some(c.hour as int),
        number(s, i + 3, i + 5) == Some(c.minute as int),
        number(s, i + 6, i + 8) == Some(c.second as int),
        ascii_digit(s[i]) && ascii_digit(s[i + 1]) && s[i + 2] == ':',
        ascii_digit(s[i + 3]) && ascii_digit(s[i + 4]) && s[i + 5] == ':',
        ascii_digit(s[i + 6]) && ascii_digit(s[i + 7]),
{
    let h = padded(c.hour as int, 2);
    let m = padded(c.minute as int, 2);
    let x = padded(c.second as int, 2);
    assert(pow10(2) == 100) by {
        reveal_with_fuel(pow10, 3);
    }
    lemma_padded_reads_back(c.hour as int, 2);
    lemma_padded_reads_back(c.minute as int, 2);
    lemma_padded_reads_back(c.second as int, 2);
    let t = s.subrange(i, i + 8);
    assert(t == clock_text(c));
    assert(t[2] == ':' && t[5] == ':');
    assert(s.subrange(i, i + 2) =~= t.subrange(0, 2));
    assert(t.subrange(0, 2) =~= h);
    assert(s.subrange(i + 3, i + 5) =~= t.subrange(3, 5));
    assert(t.subrange(3, 5) =~= m);
    assert(s.subrange(i + 6, i + 8) =~= t.subrange(6, 8));
    assert(t.subrange(6, 8) =~= x);
    lemma_two_digits(s, i, c.hour as int);
    lemma_two_digits(s, i + 3, c.minute as int);
    lemma_two_digits(s, i + 6, c.second as int);
}

/// What stands in a piece of a text stands in the text.
proof fn lemma_occurs_within(s: Seq<char>, i: int, t: Seq<char>, j: int, p: Seq<char>)
    requires
        occurs_at(s, t, i),
        occurs_at(t, p, j),
    ensures
        occurs_at(s, p, i + j),
{
    assert(s.subrange(i + j, i + j + p.len()) =~= s.subrange(i, i + t.len()).subrange(
        j,
        j + p.len(),
    ));
}

/// The replacement of a span of a text.
pub open spec fn replaced(s: Seq<char>, start: int, end: int, by: Seq<char>) -> Seq<char> {
    s.take(start) + by + s.skip(end)
}

pub(crate) proof fn lemma_replaced(s: Seq<char>, start: int, end: int, by: Seq<char>)
    requires
        0 <= start <= end <= s.len(),
    ensures
        replaced(s, start, end, by).len() == s.len() - (end - start) + by.len(),
        occurs_at(replaced(s, start, end, by), by, start),
        forall|k: int|
            0 <= k < start ==> #[trigger] replaced(s, start, end, by)[k] == s[k],
        forall|k: int|
            start + by.len() <= k < replaced(s, start, end, by).len() ==> #[trigger] replaced(
                s,
                start,
                end,
                by,
            )[k] == s[k - by.len() + (end - start)],
{
    let r = replaced(s, start, end, by);
    assert(r.subrange(start, start + by.len()) =~= by);
}

// ---------------------------------------------------------------------------
// Formats without a zone
// ---------------------------------------------------------------------------

/// A yearless moment.
pub open spec fn yearless_moment(c: Civil, nanos: int) -> Moment {
    Moment::Yearless {
        month: c.month,
        day: c.day,
        tod: (c.hour * 3600 + c.minute * 60 + c.second) as u32,
        nanos: nanos as u32,
    }
}

proof fn lemma_yearless(c: Civil, local: int, nanos: int)
    requires
        shows(c, local),
    ensures
        yearless(
            Some(c.month as int),
            Some(c.day as int),
            Some(c.hour as int),
            Some(c.minute as int),
            Some(c.second as int),
            nanos,
        ) == Some(yearless_moment(c, nanos)),
{
    assert(crate::clock::leap_year(2000));
}

/// Proxifier: wherever the rendered text stands, it is found there and says
/// the month, the day and the time that it was rendered from.
pub proof fn lemma_proxifier_reads_back(s: Seq<char>, i: int, c: Civil, local: int)
    requires
        shows(c, local),
        occurs_at(s, proxifier_text(c), i),
    ensures
        proxifier_here(s, i),
        proxifier_reading(s, i) == Some(
            Reading {
                start: i,
                end: i + proxifier_text(c).len(),
                format: DetectedFormat::Proxifier,
                aux: Aux::Unit,
                moment: yearless_moment(c, 0),
            },
        ),
{
    let t = proxifier_text(c);
    assert(pow10(2) == 100) by {
        reveal_with_fuel(pow10, 3);
    }
    lemma_padded_reads_back(c.month as int, 2);
    lemma_padded_reads_back(c.day as int, 2);
    assert(occurs_at(clock_text(c), clock_text(c), 0)) by {
        assert(clock_text(c).subrange(0, clock_text(c).len() as int) =~= clock_text(c));
    }
    lemma_clock_text(clock_text(c), 0, c);
    assert(t.len() == 16);
    assert(t.subrange(1, 3) =~= padded(c.month as int, 2));
    assert(t.subrange(4, 6) =~= padded(c.day as int, 2));
    assert(t.subrange(7, 15) =~= clock_text(c));
    lemma_occurs_within(s, i, t, 1, padded(c.month as int, 2));
    lemma_occurs_within(s, i, t, 4, padded(c.day as int, 2));
    lemma_occurs_within(s, i, t, 7, clock_text(c));
    lemma_two_digits(s, i + 1, c.month as int);
    lemma_two_digits(s, i + 4, c.day as int);
    lemma_clock_text(s, i + 7, c);
    let u = s.subrange(i, i + 16);
    assert(u[0] == '[' && u[3] == '.' && u[6] == ' ' && u[15] == ']');
    reveal_strlit("[dd.dd dd:dd:dd]");
    let shape = "[dd.dd dd:dd:dd]"@;
    assert forall|k: int| 0 <= k < shape.len() implies fits_mark(#[trigger] shape[k], s[i + k]) by {
    }
    lemma_yearless(c, local, 0);
}

/// The name of a month is three letters that are read as the month.
proof fn lemma_month_name(m: int)
    requires
        1 <= m <= 12,
    ensures
        month_name(m).len() == 3,
        month_of(month_name(m)) == Some(m),
        ascii_letter(month_name(m)[0]),
        ascii_letter(month_name(m)[1]),
        ascii_letter(month_name(m)[2]),
{
    reveal_strlit("Jan");
    reveal_strlit("jan");
    reveal_strlit("Feb");
    reveal_strlit("feb");
    reveal_strlit("Mar");
    reveal_strlit("mar");
    reveal_strlit("Apr");
    reveal_strlit("apr");
    reveal_strlit("May");
    reveal_strlit("may");
    reveal_strlit("Jun");
    reveal_strlit("jun");
    reveal_strlit("Jul");
    reveal_strlit("jul");
    reveal_strlit("Aug");
    reveal_strlit("aug");
    reveal_strlit("Sep");
    reveal_strlit("sep");
    reveal_strlit("Oct");
    reveal_strlit("oct");
    reveal_strlit("Nov");
    reveal_strlit("nov");
    reveal_strlit("Dec");
    reveal_strlit("dec");
    assert(lower("Jan"@) =~= "jan"@);
    assert(lower("Feb"@) =~= "feb"@);
    assert(lower("Mar"@) =~= "mar"@);
    assert(lower("Apr"@) =~= "apr"@);
    assert(lower("May"@) =~= "may"@);
    assert(lower("Jun"@) =~= "jun"@);
    assert(lower("Jul"@) =~= "jul"@);
    assert(lower("Aug"@) =~= "aug"@);
    assert(lower("Sep"@) =~= "sep"@);
    assert(lower("Oct"@) =~= "oct"@);
    assert(lower("Nov"@) =~= "nov"@);
    assert(lower("Dec"@) =~= "dec"@);
    assert("feb"@[0] != "jan"@[0]);
    assert("mar"@[0] != "jan"@[0]);
    assert("mar"@[0] != "feb"@[0]);
    assert("apr"@[0] != "jan"@[0]);
    assert("apr"@[0] != "feb"@[0]);
    assert("apr"@[0] != "mar"@[0]);
    assert("may"@[0] != "jan"@[0]);
    assert("may"@[0] != "feb"@[0]);
    assert("may"@[2] != "mar"@[2]);
    assert("may"@[0] != "apr"@[0]);
    assert("jun"@[1] != "jan"@[1]);
    assert("jun"@[0] != "feb"@[0]);
    assert("jun"@[0] != "mar"@[0]);
    assert("jun"@[0] != "apr"@[0]);
    assert("jun"@[0] != "may"@[0]);
    assert("jul"@[1] != "jan"@[1]);
    assert("jul"@[0] != "feb"@[0]);
    assert("jul"@[0] != "mar"@[0]);
    assert("jul"@[0] != "apr"@[0]);
    assert("jul"@[0] != "may"@[0]);
    assert("jul"@[2] != "jun"@[2]);
    assert("aug"@[0] != "jan"@[0]);
    assert("aug"@[0] != "feb"@[0]);
    assert("aug"@[0] != "mar"@[0]);
    assert("aug"@[1] != "apr"@[1]);
    assert("aug"@[0] != "may"@[0]);
    assert("aug"@[0] != "jun"@[0]);
    assert("aug"@[0] != "jul"@[0]);
    assert("sep"@[0] != "jan"@[0]);
    assert("sep"@[0] != "feb"@[0]);
    assert("sep"@[0] != "mar"@[0]);
    assert("sep"@[0] != "apr"@[0]);
    assert("sep"@[0] != "may"@[0]);
    assert("sep"@[0] != "jun"@[0]);
    assert("sep"@[0] != "jul"@[0]);
    assert("sep"@[0] != "aug"@[0]);
    assert("oct"@[0] != "jan"@[0]);
    assert("oct"@[0] != "feb"@[0]);
    assert("oct"@[0] != "mar"@[0]);
    assert("oct"@[0] != "apr"@[0]);
    assert("oct"@[0] != "may"@[0]);
    assert("oct"@[0] != "jun"@[0]);
    assert("oct"@[0] != "jul"@[0]);
    assert("oct"@[0] != "aug"@[0]);
    assert("oct"@[0] != "sep"@[0]);
    assert("nov"@[0] != "jan"@[0]);
    assert("nov"@[0] != "feb"@[0]);
    assert("nov"@[0] != "mar"@[0]);
    assert("nov"@[0] != "apr"@[0]);
    assert("nov"@[0] != "may"@[0]);
    assert("nov"@[0] != "jun"@[0]);
    assert("nov"@[0] != "jul"@[0]);
    assert("nov"@[0] != "aug"@[0]);
    assert("nov"@[0] != "sep"@[0]);
    assert("nov"@[0] != "oct"@[0]);
    assert("dec"@[0] != "jan"@[0]);
    assert("dec"@[0] != "feb"@[0]);
    assert("dec"@[0] != "mar"@[0]);
    assert("dec"@[0] != "apr"@[0]);
    assert("dec"@[0] != "may"@[0]);
    assert("dec"@[0] != "jun"@[0]);
    assert("dec"@[0] != "jul"@[0]);
    assert("dec"@[0] != "aug"@[0]);
    assert("dec"@[0] != "sep"@[0]);
    assert("dec"@[0] != "oct"@[0]);
    assert("dec"@[0] != "nov"@[0]);
}

proof fn lemma_weekday_name(w: int)
    ensures
        weekday_name(w).len() == 3,
        ascii_letter(weekday_name(w)[0]),
        ascii_letter(weekday_name(w)[1]),
        ascii_letter(weekday_name(w)[2]),
{
    reveal_strlit("Sun");
    reveal_strlit("Mon");
    reveal_strlit("Tue");
    reveal_strlit("Wed");
    reveal_strlit("Thu");
    reveal_strlit("Fri");
    reveal_strlit("Sat");
}

proof fn lemma_own_clock_text(c: Civil)
    requires
        valid_clock(c.hour as int, c.minute as int, c.second as int),
    ensures
        clock_text(c).len() == 8,
{
    assert(clock_text(c).subrange(0, clock_text(c).len() as int) =~= clock_text(c));
    lemma_clock_text(clock_text(c), 0, c);
}

proof fn lemma_two_wide(n: int)
    requires
        0 <= n < 100,
    ensures
        padded(n, 2).len() == 2,
{
    assert(pow10(2) == 100) by {
        reveal_with_fuel(pow10, 3);
    }
    lemma_padded_reads_back(n, 2);
}

proof fn lemma_three_wide(n: int)
    requires
        0 <= n < 1000,
    ensures
        padded(n, 3).len() == 3,
{
    assert(pow10(3) == 1000) by {
        reveal_with_fuel(pow10, 4);
    }
    lemma_padded_reads_back(n, 3);
}

proof fn lemma_four_wide(n: int)
    requires
        0 <= n < 10_000,
    ensures
        padded(n, 4).len() == 4,
{
    assert(pow10(4) == 10_000) by {
        reveal_with_fuel(pow10, 5);
    }
    lemma_padded_reads_back(n, 4);
}

/// The nanoseconds of whole milliseconds.
pub open spec fn to_millis(nanos: int) -> int {
    nanos / 1_000_000 * 1_000_000
}

/// Android: wherever the rendered text stands between non-words, it is found
/// there and says the month, the day and the time to the millisecond that it
/// was rendered from.
pub proof fn lemma_android_reads_back(s: Seq<char>, i: int, c: Civil, local: int, nanos: int)
    requires
        shows(c, local),
        0 <= nanos < 1_000_000_000,
        occurs_at(s, android_text(c, nanos), i),
        !word_at(s, i - 1),
        !word_at(s, i + android_text(c, nanos).len()),
    ensures
        android_here(s, i),
        android_reading(s, i) == Some(
            Reading {
                start: i,
                end: i + android_text(c, nanos).len(),
                format: DetectedFormat::Android,
                aux: Aux::Unit,
                moment: yearless_moment(c, to_millis(nanos)),
            },
        ),
{
    let t = android_text(c, nanos);
    let ms = nanos / 1_000_000;
    lemma_two_wide(c.month as int);
    lemma_two_wide(c.day as int);
    lemma_three_wide(ms);
    lemma_own_clock_text(c);
    assert(t.len() == 18);
    assert(t.subrange(0, 2) =~= padded(c.month as int, 2));
    assert(t.subrange(3, 5) =~= padded(c.day as int, 2));
    assert(t.subrange(6, 14) =~= clock_text(c));
    assert(t.subrange(15, 18) =~= padded(ms, 3));
    lemma_occurs_within(s, i, t, 0, padded(c.month as int, 2));
    lemma_occurs_within(s, i, t, 3, padded(c.day as int, 2));
    lemma_occurs_within(s, i, t, 6, clock_text(c));
    lemma_occurs_within(s, i, t, 15, padded(ms, 3));
    lemma_two_digits(s, i, c.month as int);
    lemma_two_digits(s, i + 3, c.day as int);
    lemma_clock_text(s, i + 6, c);
    lemma_three_digits(s, i + 15, ms);
    let u = s.subrange(i, i + 18);
    assert(u[2] == '-' && u[5] == ' ' && u[14] == '.');
    reveal_strlit("dd-dd dd:dd:dd.ddd");
    let shape = "dd-dd dd:dd:dd.ddd"@;
    assert forall|k: int| 0 <= k < shape.len() implies fits_mark(#[trigger] shape[k], s[i + k]) by {
    }
    lemma_yearless(c, local, to_millis(nanos));
}

/// HealthApp: wherever the rendered text stands between non-words, it is found
/// there and says the date and the time to the millisecond that it was rendered
/// from.
pub proof fn lemma_health_reads_back(s: Seq<char>, i: int, c: Civil, local: int, nanos: int)
    requires
        shows(c, local),
        1000 <= c.year <= 9999,
        0 <= nanos < 1_000_000_000,
        occurs_at(s, health_text(c, nanos), i),
        !word_at(s, i - 1),
        !word_at(s, i + health_text(c, nanos).len()),
    ensures
        health_here(s, i),
        health_reading(s, i) == Some(
            Reading {
                start: i,
                end: i + health_text(c, nanos).len(),
                format: DetectedFormat::HealthApp,
                aux: Aux::Unit,
                moment: Moment::Zoneless { secs: local as i64, nanos: to_millis(nanos) as u32 },
            },
        ),
{
    let t = health_text(c, nanos);
    let ms = nanos / 1_000_000;
    lemma_plain_year(c.year as int);
    lemma_four_wide(c.year as int);
    lemma_two_wide(c.month as int);
    lemma_two_wide(c.day as int);
    lemma_three_wide(ms);
    lemma_own_clock_text(c);
    assert(t.len() == 21);
    assert(t.subrange(0, 4) =~= padded(c.year as int, 4));
    assert(t.subrange(4, 6) =~= padded(c.month as int, 2));
    assert(t.subrange(6, 8) =~= padded(c.day as int, 2));
    assert(t.subrange(9, 17) =~= clock_text(c));
    assert(t.subrange(18, 21) =~= padded(ms, 3));
    lemma_occurs_within(s, i, t, 0, padded(c.year as int, 4));
    lemma_occurs_within(s, i, t, 4, padded(c.month as int, 2));
    lemma_occurs_within(s, i, t, 6, padded(c.day as int, 2));
    lemma_occurs_within(s, i, t, 9, clock_text(c));
    lemma_occurs_within(s, i, t, 18, padded(ms, 3));
    lemma_four_digits(s, i, c.year as int);
    lemma_two_digits(s, i + 4, c.month as int);
    lemma_two_digits(s, i + 6, c.day as int);
    lemma_clock_text(s, i + 9, c);
    lemma_three_digits(s, i + 18, ms);
    let u = s.subrange(i, i + 21);
    assert(u[8] == '-' && u[17] == ':');
    reveal_strlit("dddddddd-dd:dd:dd:ddd");
    let shape = "dddddddd-dd:dd:dd:ddd"@;
    assert forall|k: int| 0 <= k < shape.len() implies fits_mark(#[trigger] shape[k], s[i + k]) by {
    }
}

/// Syslog: where the rendered text stands at the start of a line, before white
/// space or the end, it is found there and says the month, the day and the time
/// that it was rendered from.
pub proof fn lemma_syslog_reads_back(s: Seq<char>, c: Civil, local: int)
    requires
        shows(c, local),
        occurs_at(s, syslog_text(c), 0),
        s.len() == syslog_text(c).len() || crate::text::white_space(
            s[syslog_text(c).len() as int],
        ),
    ensures
        syslog_here(s, 0),
        syslog_reading(s, 0) == Some(
            Reading {
                start: 0,
                end: syslog_text(c).len() as int,
                format: DetectedFormat::SyslogNoYear,
                aux: Aux::Unit,
                moment: yearless_moment(c, 0),
            },
        ),
{
    let t = syslog_text(c);
    lemma_month_name(c.month as int);
    lemma_two_wide(c.day as int);
    lemma_padded_reads_back(c.day as int, 1);
    assert(pow10(1) == 10) by {
        reveal_with_fuel(pow10, 2);
    }
    lemma_own_clock_text(c);
    assert(t.len() == 15);
    assert(t.subrange(0, 3) =~= month_name(c.month as int));
    assert(t.subrange(7, 15) =~= clock_text(c));
    lemma_occurs_within(s, 0, t, 0, month_name(c.month as int));
    lemma_occurs_within(s, 0, t, 7, clock_text(c));
    lemma_clock_text(s, 7, c);
    let u = s.subrange(0, 15);
    assert(u[3] == ' ' && u[6] == ' ');
    let m = s.subrange(0, 3);
    assert(ascii_letter(m[0]) && ascii_letter(m[1]) && ascii_letter(m[2]));
    reveal_with_fuel(digit_run, 3);
    if c.day < 10 {
        assert(t.subrange(5, 6) =~= padded(c.day as int, 1));
        lemma_occurs_within(s, 0, t, 5, padded(c.day as int, 1));
        assert(u[4] == ' ');
        let d = s.subrange(5, 6);
        assert(ascii_digit(d[0]));
        assert(day_start(s, 4) == 5);
        assert(digit_run(s, 5, 2) == 1);
        assert(number(s, 5, 6) == Some(c.day as int));
    } else {
        assert(t.subrange(4, 6) =~= padded(c.day as int, 2));
        lemma_occurs_within(s, 0, t, 4, padded(c.day as int, 2));
        lemma_two_digits(s, 4, c.day as int);
        assert(day_start(s, 4) == 4);
        assert(digit_run(s, 4, 2) == 2);
    }
    assert(day_end(s, 4) == 6);
    reveal_strlit("aaa ");
    let head = "aaa "@;
    assert forall|k: int| 0 <= k < head.len() implies fits_mark(#[trigger] head[k], s[0 + k]) by {
    }
    reveal_strlit(" dd:dd:dd");
    let tail = " dd:dd:dd"@;
    assert forall|k: int| 0 <= k < tail.len() implies fits_mark(#[trigger] tail[k], s[6 + k]) by {
    }
    lemma_yearless(c, local, 0);
}

/// Apache: wherever the rendered text stands, it is found there and says the
/// date and the time that it was rendered from.
pub proof fn lemma_ctf_reads_back(s: Seq<char>, i: int, c: Civil, local: int)
    requires
        shows(c, local),
        1000 <= c.year <= 9999,
        occurs_at(s, ctf_text(c), i),
    ensures
        ctf_here(s, i),
        ctf_reading(s, i) == Some(
            Reading {
                start: i,
                end: i + ctf_text(c).len(),
                format: DetectedFormat::ApacheCtf,
                aux: Aux::Unit,
                moment: Moment::Zoneless { secs: local as i64, nanos: 0 },
            },
        ),
{
    let t = ctf_text(c);
    lemma_plain_year(c.year as int);
    lemma_four_wide(c.year as int);
    lemma_month_name(c.month as int);
    lemma_weekday_name(c.weekday as int);
    lemma_two_wide(c.day as int);
    lemma_own_clock_text(c);
    assert(t.len() == 26);
    assert(t.subrange(1, 4) =~= weekday_name(c.weekday as int));
    assert(t.subrange(5, 8) =~= month_name(c.month as int));
    assert(t.subrange(9, 11) =~= padded(c.day as int, 2));
    assert(t.subrange(12, 20) =~= clock_text(c));
    assert(t.subrange(21, 25) =~= padded(c.year as int, 4));
    lemma_occurs_within(s, i, t, 1, weekday_name(c.weekday as int));
    lemma_occurs_within(s, i, t, 5, month_name(c.month as int));
    lemma_occurs_within(s, i, t, 9, padded(c.day as int, 2));
    lemma_occurs_within(s, i, t, 12, clock_text(c));
    lemma_occurs_within(s, i, t, 21, padded(c.year as int, 4));
    lemma_two_digits(s, i + 9, c.day as int);
    lemma_clock_text(s, i + 12, c);
    lemma_four_digits(s, i + 21, c.year as int);
    let u = s.subrange(i, i + 26);
    assert(u[0] == '[' && u[4] == ' ' && u[8] == ' ' && u[11] == ' ' && u[20] == ' ' && u[25]
        == ']');
    let w = s.subrange(i + 1, i + 4);
    assert(ascii_letter(w[0]) && ascii_letter(w[1]) && ascii_letter(w[2]));
    let m = s.subrange(i + 5, i + 8);
    assert(ascii_letter(m[0]) && ascii_letter(m[1]) && ascii_letter(m[2]));
    reveal_with_fuel(digit_run, 3);
    assert(day_start(s, i + 9) == i + 9);
    assert(day_end(s, i + 9) == i + 11);
    reveal_strlit("[www www ");
    let head = "[www www "@;
    assert forall|k: int| 0 <= k < head.len() implies fits_mark(#[trigger] head[k], s[i + k]) by {
    }
    reveal_strlit(" dd:dd:dd dddd]");
    let tail = " dd:dd:dd dddd]"@;
    let e = i + 11;
    assert forall|k: int| 0 <= k < tail.len() implies fits_mark(#[trigger] tail[k], s[e + k]) by {
    }
}

// ---------------------------------------------------------------------------
// Formats with a zone
// ---------------------------------------------------------------------------

/// A zone as detection finds it: whole minutes, the sign of the offset, and a
/// `Z` only for UTC.
pub open spec fn written_zone(z: Zone) -> bool {
    let off = z.offset_of();
    match z.style_of() {
        ZoneStyle::Digits { minus, colon } => {
            &&& valid_offset(off)
            &&& magnitude(off) % 60 == 0
            &&& off < 0 ==> minus
            &&& off > 0 ==> !minus
        },
        _ => off == 0,
    }
}

proof fn lemma_offset_text(s: Seq<char>, q: int, off: int, minus: bool, colon: bool)
    requires
        valid_offset(off),
        magnitude(off) % 60 == 0,
        off < 0 ==> minus,
        off > 0 ==> !minus,
        occurs_at(s, offset_text(off, minus, colon), q),
    ensures
        offset_text(off, minus, colon).len() == if colon {
            6int
        } else {
            5
        },
        s[q] == if minus {
            '-'
        } else {
            '+'
        },
        colon ==> fits(s, q, "sdd:dd"@) && signed_offset(s, q, q + 1, q + 4) == Some(off),
        !colon ==> !fits(s, q, "sdd:dd"@) && fits(s, q, "sdddd"@) && signed_offset(
            s,
            q,
            q + 1,
            q + 3,
        ) == Some(off),
{
    let t = offset_text(off, minus, colon);
    let h = magnitude(off) / 3600;
    let m = magnitude(off) % 3600 / 60;
    assert(h * 3600 + m * 60 == magnitude(off));
    lemma_two_wide(h);
    lemma_two_wide(m);
    let n = if colon {
        4int
    } else {
        3int
    };
    assert(t.len() == n + 2);
    assert(t.subrange(1, 3) =~= padded(h, 2));
    assert(t.subrange(n, n + 2) =~= padded(m, 2));
    lemma_occurs_within(s, q, t, 1, padded(h, 2));
    lemma_occurs_within(s, q, t, n, padded(m, 2));
    lemma_two_digits(s, q + 1, h);
    lemma_two_digits(s, q + n, m);
    let u = s.subrange(q, q + n + 2);
    assert(u[0] == t[0]);
    reveal_strlit("sdd:dd");
    reveal_strlit("sdddd");
    if colon {
        assert(u[3] == ':');
        let shape = "sdd:dd"@;
        assert forall|k: int| 0 <= k < shape.len() implies fits_mark(
            #[trigger] shape[k],
            s[q + k],
        ) by {}
    } else {
        let shape = "sdddd"@;
        assert forall|k: int| 0 <= k < shape.len() implies fits_mark(
            #[trigger] shape[k],
            s[q + k],
        ) by {}
        if fits(s, q, "sdd:dd"@) {
            assert(fits_mark("sdd:dd"@[3], s[q + 3]));
            assert(false);
        }
    }
}

/// Apache common log: wherever the rendered text stands in front of a non-word,
/// it is found there and says the instant, to the second, that it was rendered
/// from.
pub proof fn lemma_clf_reads_back(s: Seq<char>, i: int, z: Zone, secs: int)
    requires
        in_range(secs * 1_000_000_000),
        z.style_of() matches ZoneStyle::Digits { colon, .. } && !colon,
        written_zone(z),
        0 <= civil(secs + z.offset_of()).year <= 9999,
        occurs_at(s, clf_text(civil(secs + z.offset_of())) + zone_text(z), i),
        !word_at(s, i + 26),
    ensures
        clf_here(s, i),
        (clf_text(civil(secs + z.offset_of())) + zone_text(z)).len() == 26,
        clf_reading(s, i) == Some(
            Reading {
                start: i,
                end: i + 26,
                format: DetectedFormat::ApacheClf,
                aux: Aux::Clf { tz: z },
                moment: Moment::Exact { secs: secs as i64, nanos: 0 },
            },
        ),
{
    let off = z.offset_of();
    let c = civil(secs + off);
    lemma_civil_shows(secs + off);
    let t = clf_text(c) + zone_text(z);
    let minus = z.style_of()->minus;
    let w = offset_text(off, minus, false);
    assert(zone_text(z) == w);
    assert(signed_padded(c.year as int, 4) == padded(c.year as int, 4));
    lemma_four_wide(c.year as int);
    lemma_month_name(c.month as int);
    lemma_two_wide(c.day as int);
    lemma_own_clock_text(c);
    assert(t.subrange(21, t.len() as int) =~= w);
    lemma_occurs_within(s, i, t, 21, w);
    lemma_offset_text(s, i + 21, off, minus, false);
    assert(t.len() == 26);
    assert(t.subrange(0, 2) =~= padded(c.day as int, 2));
    assert(t.subrange(3, 6) =~= month_name(c.month as int));
    assert(t.subrange(7, 11) =~= padded(c.year as int, 4));
    assert(t.subrange(12, 20) =~= clock_text(c));
    lemma_occurs_within(s, i, t, 0, padded(c.day as int, 2));
    lemma_occurs_within(s, i, t, 3, month_name(c.month as int));
    lemma_occurs_within(s, i, t, 7, padded(c.year as int, 4));
    lemma_occurs_within(s, i, t, 12, clock_text(c));
    lemma_two_digits(s, i, c.day as int);
    lemma_four_digits(s, i + 7, c.year as int);
    lemma_clock_text(s, i + 12, c);
    let u = s.subrange(i, i + 26);
    assert(u[2] == '/' && u[6] == '/' && u[11] == ':' && u[20] == ' ');
    let m = s.subrange(i + 3, i + 6);
    assert(ascii_letter(m[0]) && ascii_letter(m[1]) && ascii_letter(m[2]));
    reveal_strlit("sdddd");
    let zs = "sdddd"@;
    assert(fits_mark(zs[1], s[i + 21 + 1]) && fits_mark(zs[2], s[i + 21 + 2]) && fits_mark(
        zs[3],
        s[i + 21 + 3],
    ) && fits_mark(zs[4], s[i + 21 + 4]));
    reveal_strlit("dd/www/dddd:dd:dd:dd sdddd");
    let shape = "dd/www/dddd:dd:dd:dd sdddd"@;
    assert forall|k: int| 0 <= k < shape.len() implies fits_mark(#[trigger] shape[k], s[i + k]) by {
    }
    assert(ascii_digit(s[i + 25])) by {
        lemma_two_wide(magnitude(off) % 3600 / 60);
        let mm = padded(magnitude(off) % 3600 / 60, 2);
        assert(w.subrange(3, 5) =~= mm);
        lemma_occurs_within(s, i + 21, w, 3, mm);
        lemma_two_digits(s, i + 24, magnitude(off) % 3600 / 60);
    }
    z.lemma_parts();
}

pub(crate) proof fn lemma_digits_end(s: Seq<char>, i: int, j: int)
    requires
        0 <= i <= j <= s.len(),
        forall|k: int| i <= k < j ==> ascii_digit(#[trigger] s[k]),
        j == s.len() || !ascii_digit(s[j]),
    ensures
        digits_end(s, i) == j,
    decreases j - i,
{
    if i < j {
        assert(ascii_digit(s[i]));
        lemma_digits_end(s, i + 1, j);
    }
}

/// Epoch: wherever a plausible number of nine to thirteen digits stands as a
/// token of its own, it is found there and says the instant, to the second or
/// to the millisecond, that it was rendered from.
pub proof fn lemma_epoch_reads_back(s: Seq<char>, i: int, n: int)
    requires
        100_000_000 <= n <= 2_145_916_800 || 1_000_000_000_000 <= n <= 2_145_916_800_000,
        occurs_at(s, signed_padded(n, 1), i),
        token_start(s, i),
        token_end(s, i + signed_padded(n, 1).len()),
    ensures
        epoch_here(s, i),
        epoch_reading(s, i) == Some(
            Reading {
                start: i,
                end: i + signed_padded(n, 1).len(),
                format: DetectedFormat::Epoch,
                aux: Aux::Unit,
                moment: if n <= 2_145_916_800 {
                    Moment::Exact { secs: n as i64, nanos: 0 }
                } else {
                    Moment::Exact {
                        secs: (n / 1000) as i64,
                        nanos: (n % 1000 * 1_000_000) as u32,
                    }
                },
            },
        ),
{
    let t = padded(n, 1);
    lemma_padded_reads_back(n, 1);
    lemma_decimal_width(n);
    let j = i + t.len();
    assert(s.subrange(i, j) == t);
    assert forall|k: int| i <= k < j implies ascii_digit(#[trigger] s[k]) by {
        assert(s.subrange(i, j)[k - i] == s[k]);
    }
    lemma_digits_end(s, i, j);
}

/// The widths of the decimal texts of plausible epochs.
proof fn lemma_decimal_width(n: int)
    requires
        100_000_000 <= n < 10_000_000_000 || 1_000_000_000_000 <= n < 10_000_000_000_000,
    ensures
        padded(n, 1).len() == if n < 1_000_000_000 {
            9int
        } else if n < 10_000_000_000 {
            10
        } else {
            13
        },
{
    reveal_with_fuel(padded, 14);
}

// ---------------------------------------------------------------------------
// ISO
// ---------------------------------------------------------------------------

/// The nanoseconds that the first `frac` digits of a fraction keep, which is
/// known to the microsecond.
pub open spec fn cut(nanos: int, frac: int) -> int {
    let k = if frac < 6 {
        frac
    } else {
        6
    };
    nanos / 1000 / pow10(6 - k) * pow10(6 - k) * 1000
}

/// The first `j` of `w` digits are the number without the digits that follow.
proof fn lemma_leading_digits(n: int, w: int, j: int)
    requires
        1 <= w,
        0 <= n < pow10(w),
        0 <= j <= w,
    ensures
        padded(n, w).len() == w,
        digits_value(padded(n, w).take(j)) == n / pow10(w - j),
    decreases w,
{
    lemma_padded_reads_back(n, w);
    let p = padded(n, w);
    if j == w {
        assert(p.take(w) =~= p);
        assert(pow10(0) == 1);
        assert(n / 1 == n);
    } else if w == 1 {
        assert(pow10(1) == 10) by {
            reveal_with_fuel(pow10, 2);
        }
        assert(p.take(0) =~= Seq::<char>::empty());
        assert(digits_value(p.take(0)) == 0);
        assert(n / 10 == 0);
    } else {
        assert(pow10(w) == 10 * pow10(w - 1));
        lemma_leading_digits(n / 10, w - 1, j);
        assert(p.take(j) =~= padded(n / 10, w - 1).take(j));
        let d = pow10(w - 1 - j);
        crate::text::lemma_pow10_monotone(0, w - 1 - j);
        assert(pow10(w - j) == 10 * d);
        vstd::arithmetic::div_mod::lemma_div_denominator(n, 10, d);
    }
}

proof fn lemma_digit_run(s: Seq<char>, p: int, n: int, max: int)
    requires
        0 <= n <= max,
        0 <= p,
        p + n <= s.len(),
        forall|k: int| p <= k < p + n ==> digit(#[trigger] s[k]),
        n == max || p + n == s.len() || !digit(s[p + n]),
    ensures
        digit_run(s, p, max) == n,
    decreases n,
{
    if n > 0 {
        assert(digit(s[p]));
        lemma_digit_run(s, p + 1, n - 1, max - 1);
    }
}

proof fn lemma_fraction(s: Seq<char>, p: int, nanos: int, frac: int)
    requires
        0 <= nanos < 1_000_000_000,
        1 <= frac <= 9,
        occurs_at(s, fraction_digits(nanos, frac), p),
        frac == 9 || p + frac == s.len() || !digit(s[p + frac]),
    ensures
        digit_run(s, p, 9) == frac,
        fraction_nanos(s, p, frac) == cut(nanos, frac),
{
    let micros = nanos / 1000;
    let k = if frac < 6 {
        frac
    } else {
        6
    };
    let f = fraction_digits(nanos, frac);
    let m = padded(micros, 6);
    assert(pow10(6) == 1_000_000) by {
        reveal_with_fuel(pow10, 7);
    }
    lemma_padded_reads_back(micros, 6);
    lemma_leading_digits(micros, 6, k);
    assert forall|j: int| p <= j < p + frac implies ascii_digit(#[trigger] s[j]) by {
        assert(s.subrange(p, p + frac)[j - p] == f[j - p]);
        if j - p < 6 {
            assert(ascii_digit(m[j - p]));
        }
    }
    lemma_digit_run(s, p, frac, 9);
    assert(s.subrange(p, p + k) =~= m.take(k)) by {
        assert forall|j: int| 0 <= j < k implies s.subrange(p, p + k)[j] == m.take(k)[j] by {
            assert(s.subrange(p, p + frac)[j] == f[j]);
        }
    }
    assert(all_digits(m.take(k))) by {
        assert forall|j: int| 0 <= j < k implies ascii_digit(#[trigger] m.take(k)[j]) by {
            assert(ascii_digit(m[j]));
        }
    }
    assert(number(s, p, p + k) == Some(micros / pow10(6 - k)));
}

proof fn lemma_zone_text(s: Seq<char>, q: int, z: Zone)
    requires
        written_zone(z),
        occurs_at(s, zone_text(z), q),
    ensures
        zone_at(s, q) == Some(z),
        zone_len(s, q) == zone_text(z).len(),
        zone_text(z).len() > 0,
        s[q] == 'Z' || s[q] == 'z' || s[q] == '+' || s[q] == '-',
{
    let t = zone_text(z);
    z.lemma_parts();
    match z.style_of() {
        ZoneStyle::Digits { minus, colon } => {
            lemma_offset_text(s, q, z.offset_of(), minus, colon);
        },
        _ => {
            assert(s.subrange(q, q + 1)[0] == t[0]);
        },
    }
}

/// The text of an ISO timestamp.
pub open spec fn iso_whole(
    t: int,
    off: int,
    sep: char,
    frac: int,
    mark: char,
    tz: Option<Zone>,
) -> Seq<char> {
    match tz {
        Some(z) => iso_text(
            civil(whole_seconds(t) + z.offset_of()),
            subsec(t),
            sep,
            frac,
            mark,
        ) + zone_text(z),
        None => iso_text(civil(whole_seconds(t) + off), subsec(t), sep, frac, mark),
    }
}

/// The seconds that the clock shows which an ISO timestamp is rendered by.
pub open spec fn iso_shown(t: int, off: int, tz: Option<Zone>) -> int {
    match tz {
        Some(z) => whole_seconds(t) + z.offset_of(),
        None => whole_seconds(t) + off,
    }
}

/// The details of an ISO timestamp as detection finds them.
pub open spec fn written_iso(sep: char, frac: int, mark: char, tz: Option<Zone>) -> bool {
    &&& sep == 'T' || sep == ' '
    &&& 0 <= frac <= 9
    &&& mark == '.' || (mark == ',' && frac > 0)
    &&& tz matches Some(z) ==> written_zone(z)
}

/// What follows at `e` does not continue a timestamp that ends there without a
/// zone.
pub open spec fn closes_iso(s: Seq<char>, e: int, frac: int) -> bool {
    &&& zone_len(s, e) == 0
    &&& frac == 0 ==> fraction_len(s, e) == 0
    &&& frac == 9 || e == s.len() || !digit(s[e]) || frac == 0
}

proof fn lemma_cut_to_nothing(nanos: int)
    requires
        0 <= nanos < 1_000_000_000,
    ensures
        cut(nanos, 0) == 0,
{
    assert(pow10(6) == 1_000_000) by {
        reveal_with_fuel(pow10, 7);
    }
    assert(nanos / 1000 / 1_000_000 == 0);
}

proof fn lemma_iso_date_time_len(c: Civil, sep: char, shown: int)
    requires
        shows(c, shown),
        1000 <= c.year <= 9999,
    ensures
        iso_date_time(c, sep).len() == 19,
{
    lemma_plain_year(c.year as int);
    lemma_four_wide(c.year as int);
    lemma_two_wide(c.month as int);
    lemma_two_wide(c.day as int);
    lemma_own_clock_text(c);
}

proof fn lemma_iso_date_time(s: Seq<char>, i: int, c: Civil, sep: char, shown: int)
    requires
        shows(c, shown),
        1000 <= c.year <= 9999,
        sep == 'T' || sep == ' ',
        occurs_at(s, iso_date_time(c, sep), i),
    ensures
        fits(s, i, "dddd-dd-ddtdd:dd:dd"@),
        ascii_digit(s[i]),
        s[i + 10] == sep,
        date_time(
            number(s, i, i + 4),
            number(s, i + 5, i + 7),
            number(s, i + 8, i + 10),
            number(s, i + 11, i + 13),
            number(s, i + 14, i + 16),
            number(s, i + 17, i + 19),
        ) == Some(shown),
{
    lemma_plain_year(c.year as int);
    lemma_four_wide(c.year as int);
    lemma_two_wide(c.month as int);
    lemma_two_wide(c.day as int);
    lemma_own_clock_text(c);
    let d = iso_date_time(c, sep);
    assert(d.len() == 19);
    assert(d.subrange(0, 4) =~= padded(c.year as int, 4));
    assert(d.subrange(5, 7) =~= padded(c.month as int, 2));
    assert(d.subrange(8, 10) =~= padded(c.day as int, 2));
    assert(d.subrange(11, 19) =~= clock_text(c));
    lemma_occurs_within(s, i, d, 0, padded(c.year as int, 4));
    lemma_occurs_within(s, i, d, 5, padded(c.month as int, 2));
    lemma_occurs_within(s, i, d, 8, padded(c.day as int, 2));
    lemma_occurs_within(s, i, d, 11, clock_text(c));
    lemma_four_digits(s, i, c.year as int);
    lemma_two_digits(s, i + 5, c.month as int);
    lemma_two_digits(s, i + 8, c.day as int);
    lemma_clock_text(s, i + 11, c);
    let u = s.subrange(i, i + 19);
    assert(u[4] == '-' && u[7] == '-' && u[10] == sep);
    reveal_strlit("dddd-dd-ddtdd:dd:dd");
    let shape = "dddd-dd-ddtdd:dd:dd"@;
    assert forall|k: int| 0 <= k < shape.len() implies fits_mark(#[trigger] shape[k], s[i + k]) by {
    }
}

/// ISO: wherever the rendered text stands behind a non-word, and nothing
/// follows that continues it, it is found there and says the instant, cut to
/// the digits of its fraction, that it was rendered from.
#[verifier::rlimit(40)]
pub proof fn lemma_iso_reads_back(
    s: Seq<char>,
    i: int,
    t: int,
    off: int,
    sep: char,
    frac: int,
    mark: char,
    tz: Option<Zone>,
)
    requires
        in_range(t),
        valid_offset(off),
        written_iso(sep, frac, mark, tz),
        1000 <= civil(iso_shown(t, off, tz)).year <= 9999,
        occurs_at(s, iso_whole(t, off, sep, frac, mark, tz), i),
        !word_at(s, i - 1),
        tz is None ==> closes_iso(s, i + iso_whole(t, off, sep, frac, mark, tz).len(), frac),
    ensures
        iso_here(s, i),
        iso_reading(s, i) == Some(
            Reading {
                start: i,
                end: i + iso_whole(t, off, sep, frac, mark, tz).len(),
                format: DetectedFormat::Iso,
                aux: Aux::Iso { sep, frac: frac as u8, mark, tz },
                moment: match tz {
                    Some(z) => Moment::Exact {
                        secs: whole_seconds(t) as i64,
                        nanos: cut(subsec(t), frac) as u32,
                    },
                    None => Moment::Zoneless {
                        secs: (whole_seconds(t) + off) as i64,
                        nanos: cut(subsec(t), frac) as u32,
                    },
                },
            },
        ),
{
    let x = iso_whole(t, off, sep, frac, mark, tz);
    let shown = iso_shown(t, off, tz);
    let c = civil(shown);
    lemma_civil_shows(shown);
    let d = iso_date_time(c, sep);
    lemma_iso_date_time_len(c, sep, shown);
    assert(x.subrange(0, 19) =~= d);
    lemma_occurs_within(s, i, x, 0, d);
    lemma_iso_date_time(s, i, c, sep, shown);
    let q = i + if frac > 0 {
        20 + frac
    } else {
        19
    };
    if let Some(z) = tz {
        assert(x.subrange(q - i, x.len() as int) =~= zone_text(z));
        lemma_occurs_within(s, i, x, q - i, zone_text(z));
        lemma_zone_text(s, q, z);
    } else {
        assert(x.len() == q - i);
    }
    if frac > 0 {
        let f = fraction_digits(subsec(t), frac);
        assert(x.subrange(20, 20 + frac) =~= f);
        lemma_occurs_within(s, i, x, 20, f);
        assert(s.subrange(i, i + x.len())[19] == mark);
        lemma_fraction(s, i + 20, subsec(t), frac);
    } else {
        assert(fraction_len(s, i + 19) == 0);
        lemma_cut_to_nothing(subsec(t));
    }
}

// ---------------------------------------------------------------------------
// In the place of a timestamp that was found
// ---------------------------------------------------------------------------

/// From `a` on, `x` goes on as `y` does from `b` on.
pub open spec fn same_rest(x: Seq<char>, a: int, y: Seq<char>, b: int) -> bool {
    &&& 0 <= a <= x.len()
    &&& 0 <= b <= y.len()
    &&& x.len() - a == y.len() - b
    &&& forall|k: int| a <= k < x.len() ==> #[trigger] x[k] == y[k - a + b]
}

pub(crate) proof fn lemma_same_rest_fits(x: Seq<char>, a: int, y: Seq<char>, b: int, shape: Seq<char>)
    requires
        same_rest(x, a, y, b),
    ensures
        fits(x, a, shape) == fits(y, b, shape),
{
    if fits(x, a, shape) {
        assert forall|k: int| 0 <= k < shape.len() implies fits_mark(
            #[trigger] shape[k],
            y[b + k],
        ) by {
            assert(x[a + k] == y[a + k - a + b]);
        }
    }
    if fits(y, b, shape) {
        assert forall|k: int| 0 <= k < shape.len() implies fits_mark(
            #[trigger] shape[k],
            x[a + k],
        ) by {
            assert(x[a + k] == y[a + k - a + b]);
        }
    }
}

pub(crate) proof fn lemma_same_rest_digit_run(x: Seq<char>, a: int, y: Seq<char>, b: int, max: int)
    requires
        same_rest(x, a, y, b),
    ensures
        digit_run(x, a, max) == digit_run(y, b, max),
    decreases max,
{
    if 0 < max && a < x.len() && digit(x[a]) {
        assert forall|k: int| a + 1 <= k < x.len() implies #[trigger] x[k] == y[k - (a + 1) + (b
            + 1)] by {
            assert(x[k] == y[k - a + b]);
        }
        lemma_same_rest_digit_run(x, a + 1, y, b + 1, max - 1);
    }
}

pub(crate) proof fn lemma_digit_run_stops(s: Seq<char>, p: int, max: int)
    requires
        0 <= p <= s.len(),
        0 <= max,
    ensures
        0 <= digit_run(s, p, max) <= max,
        p + digit_run(s, p, max) <= s.len(),
        forall|k: int| p <= k < p + digit_run(s, p, max) ==> digit(#[trigger] s[k]),
        digit_run(s, p, max) < max ==> p + digit_run(s, p, max) == s.len() || !digit(
            s[p + digit_run(s, p, max)],
        ),
    decreases max,
{
    if 0 < max && p < s.len() && digit(s[p]) {
        lemma_digit_run_stops(s, p + 1, max - 1);
    }
}

/// A field that was read is made of decimal digits.
pub(crate) proof fn lemma_number_digits(s: Seq<char>, a: int, b: int)
    requires
        0 <= a <= b <= s.len(),
        number(s, a, b) is Some,
    ensures
        forall|k: int| a <= k < b ==> ascii_digit(#[trigger] s[k]),
        0 <= number(s, a, b)->0 < pow10(b - a),
{
    let t = s.subrange(a, b);
    assert forall|k: int| a <= k < b implies ascii_digit(#[trigger] s[k]) by {
        assert(ascii_digit(t[k - a]));
    }
    crate::text::lemma_digits_value_bound(t);
}

pub(crate) proof fn lemma_found_offset(s: Seq<char>, sign: int, h: int, m: int)
    requires
        0 <= sign < h <= m,
        m + 2 <= s.len(),
        s[sign] == '+' || s[sign] == '-',
        signed_offset(s, sign, h, m) is Some,
    ensures
        ({
            let off = signed_offset(s, sign, h, m)->0;
            &&& valid_offset(off)
            &&& magnitude(off) % 60 == 0
            &&& off < 0 ==> s[sign] == '-'
            &&& off > 0 ==> s[sign] != '-'
        }),
{
    lemma_number_digits(s, h, h + 2);
    lemma_number_digits(s, m, m + 2);
}

/// A zone that was found is written as zones are.
proof fn lemma_found_zone(s: Seq<char>, q: int)
    requires
        0 <= q <= s.len(),
        zone_at(s, q) is Some,
    ensures
        written_zone(zone_at(s, q)->0),
        0 < zone_len(s, q),
        q + zone_len(s, q) <= s.len(),
{
    reveal_strlit("sdd:dd");
    reveal_strlit("sdddd");
    reveal_strlit("sdd");
    let n = zone_len(s, q);
    if n == 6 {
        assert(fits_mark("sdd:dd"@[0], s[q + 0]));
        lemma_found_offset(s, q, q + 1, q + 4);
    } else if n == 5 {
        assert(fits_mark("sdddd"@[0], s[q + 0]));
        lemma_found_offset(s, q, q + 1, q + 3);
    }
}

proof fn lemma_shape_fits(s: Seq<char>, i: int)
    requires
        fits(s, i, "dddd-dd-ddtdd:dd:dd"@),
    ensures
        i + 19 <= s.len(),
        0 <= i,
        s[i + 10] == 'T' || s[i + 10] == ' ',
{
    reveal_strlit("dddd-dd-ddtdd:dd:dd");
    assert(fits_mark("dddd-dd-ddtdd:dd:dd"@[10], s[i + 10]));
}

proof fn lemma_found_iso(s: Seq<char>, i: int)
    requires
        iso_here(s, i),
        iso_reading(s, i) is Some,
    ensures
        ({
            let r = iso_reading(s, i)->0;
            let (sep, frac, mark, tz) = iso_details(r.aux);
            &&& r.aux is Iso
            &&& written_iso(sep, frac, mark, tz)
            &&& i + 19 <= r.end <= s.len()
            &&& tz is None ==> closes_iso(s, r.end, frac)
            &&& !word_at(s, i - 1)
            &&& ascii_digit(s[i])
        }),
{
    lemma_shape_fits(s, i);
    lemma_number_digits(s, i, i + 4);
    let p = i + 19;
    if p < s.len() {
        lemma_digit_run_stops(s, p + 1, 9);
    }
    let q = fraction_end(s, p);
    assert(q <= s.len());
    if zone_at(s, q) is Some {
        lemma_found_zone(s, q);
    }
}

/// ISO, in place: a timestamp rendered in the place of one that was found is
/// found in the same place, with the same details, and says the new instant.
pub proof fn lemma_iso_in_place(s: Seq<char>, i: int, t: int, off: int)
    requires
        iso_here(s, i),
        iso_reading(s, i) is Some,
        in_range(t),
        valid_offset(off),
        ({
            let (sep, frac, mark, tz) = iso_details(iso_reading(s, i)->0.aux);
            1000 <= civil(iso_shown(t, off, tz)).year <= 9999
        }),
    ensures
        ({
            let r = iso_reading(s, i)->0;
            let (sep, frac, mark, tz) = iso_details(r.aux);
            let x = rendered(DetectedFormat::Iso, r.aux, false, t, off);
            let b = replaced(s, i, r.end, x);
            &&& iso_here(b, i)
            &&& iso_reading(b, i) == Some(
                Reading {
                    start: i,
                    end: i + x.len(),
                    format: DetectedFormat::Iso,
                    aux: r.aux,
                    moment: match tz {
                        Some(z) => Moment::Exact {
                            secs: whole_seconds(t) as i64,
                            nanos: cut(subsec(t), frac) as u32,
                        },
                        None => Moment::Zoneless {
                            secs: (whole_seconds(t) + off) as i64,
                            nanos: cut(subsec(t), frac) as u32,
                        },
                    },
                },
            )
        }),
{
    let r = iso_reading(s, i)->0;
    let (sep, frac, mark, tz) = iso_details(r.aux);
    let x = rendered(DetectedFormat::Iso, r.aux, false, t, off);
    let b = replaced(s, i, r.end, x);
    lemma_found_iso(s, i);
    assert(x == iso_whole(t, off, sep, frac, mark, tz));
    lemma_replaced(s, i, r.end, x);
    let e = i + x.len();
    assert(same_rest(b, e, s, r.end));
    assert(word_at(b, i - 1) == word_at(s, i - 1)) by {
        if i > 0 {
            assert(b[i - 1] == s[i - 1]);
        }
    }
    if tz is None {
        lemma_closes_iso_same_rest(b, e, s, r.end, frac);
    }
    lemma_iso_reads_back(b, i, t, off, sep, frac, mark, tz);
}

proof fn lemma_closes_iso_same_rest(x: Seq<char>, a: int, y: Seq<char>, b: int, frac: int)
    requires
        same_rest(x, a, y, b),
    ensures
        closes_iso(x, a, frac) == closes_iso(y, b, frac),
{
    lemma_same_rest_fits(x, a, y, b, "sdd:dd"@);
    lemma_same_rest_fits(x, a, y, b, "sdddd"@);
    lemma_same_rest_fits(x, a, y, b, "sdd"@);
    if a < x.len() {
        assert(x[a] == y[a - a + b]);
        assert forall|k: int| a + 1 <= k < x.len() implies #[trigger] x[k] == y[k - (a + 1) + (b
            + 1)] by {
            assert(x[k] == y[k - a + b]);
        }
        lemma_same_rest_digit_run(x, a + 1, y, b + 1, 9);
    }
}

/// Two texts of one length that differ in digits only.
pub open spec fn alike(x: Seq<char>, y: Seq<char>) -> bool {
    &&& x.len() == y.len()
    &&& forall|k: int|
        0 <= k < x.len() ==> #[trigger] x[k] == y[k] || (digit(x[k]) && digit(y[k]))
}

#[verifier::rlimit(40)]
proof fn lemma_same_details_alike(s: Seq<char>, b: Seq<char>, i: int)
    requires
        iso_here(s, i),
        iso_here(b, i),
        iso_reading(s, i) is Some,
        iso_reading(b, i) is Some,
        iso_reading(s, i)->0.aux == iso_reading(b, i)->0.aux,
    ensures
        iso_reading(s, i)->0.end == iso_reading(b, i)->0.end,
        forall|k: int|
            i <= k < iso_reading(s, i)->0.end ==> #[trigger] s[k] == b[k] || (digit(s[k])
                && digit(b[k])),
{
    let shape = "dddd-dd-ddtdd:dd:dd"@;
    lemma_shape_fits(s, i);
    lemma_shape_fits(b, i);
    let p = i + 19;
    if p < s.len() {
        lemma_digit_run_stops(s, p + 1, 9);
    }
    if p < b.len() {
        lemma_digit_run_stops(b, p + 1, 9);
    }
    let frac = fraction_len(s, p);
    assert(0 <= frac <= 9 && 0 <= fraction_len(b, p) <= 9);
    assert(frac as u8 == fraction_len(b, p) as u8);
    assert(frac == fraction_len(b, p));
    let q = fraction_end(s, p);
    let e = iso_reading(s, i)->0.end;
    assert(zone_at(s, q) == zone_at(b, q));
    if zone_at(s, q) is Some {
        lemma_found_zone(s, q);
        lemma_found_zone(b, q);
        lemma_same_zone_alike(s, b, q);
    }
    assert forall|k: int| i <= k < e implies #[trigger] s[k] == b[k] || (digit(s[k]) && digit(
        b[k],
    )) by {
        if k < p {
            reveal_strlit("dddd-dd-ddtdd:dd:dd");
            assert(fits_mark(shape[k - i], s[i + (k - i)]));
            assert(fits_mark(shape[k - i], b[i + (k - i)]));
            if k - i == 10 {
                assert(s[i + 10] == b[i + 10]);
            }
        } else if k < q {
            if k > p {
                assert(digit(s[k]) && digit(b[k]));
            }
        }
    }
}

proof fn lemma_same_zone_alike(s: Seq<char>, b: Seq<char>, q: int)
    requires
        0 <= q,
        zone_at(s, q) is Some,
        zone_at(s, q) == zone_at(b, q),
        q + zone_len(s, q) <= s.len(),
        q + zone_len(b, q) <= b.len(),
    ensures
        zone_len(s, q) == zone_len(b, q),
        forall|k: int|
            q <= k < q + zone_len(s, q) ==> #[trigger] s[k] == b[k] || (digit(s[k]) && digit(b[k])),
{
    reveal_strlit("sdd:dd");
    reveal_strlit("sdddd");
    let n = zone_len(s, q);
    let m = zone_len(b, q);
    if n == 5 || n == 6 {
        lemma_found_offset_valid(s, q, n);
    }
    if m == 5 || m == 6 {
        lemma_found_offset_valid(b, q, m);
    }
    assert(zone_at(s, q)->0.style_of() == zone_at(b, q)->0.style_of());
    assert(n == m);
    if n == 5 || n == 6 {
        let shape = if n == 6 {
            "sdd:dd"@
        } else {
            "sdddd"@
        };
        assert forall|k: int| q <= k < q + n implies #[trigger] s[k] == b[k] || (digit(s[k])
            && digit(b[k])) by {
            assert(fits_mark(shape[k - q], s[q + (k - q)]));
            assert(fits_mark(shape[k - q], b[q + (k - q)]));
        }
    }
}

proof fn lemma_found_offset_valid(s: Seq<char>, q: int, n: int)
    requires
        0 <= q,
        zone_at(s, q) is Some,
        n == zone_len(s, q),
        n == 5 || n == 6,
        q + n <= s.len(),
    ensures
        s[q] == '+' || s[q] == '-',
        zone_at(s, q)->0.style_of() == (ZoneStyle::Digits { minus: s[q] == '-', colon: n == 6 }),
{
    reveal_strlit("sdd:dd");
    reveal_strlit("sdddd");
    if n == 6 {
        assert(fits_mark("sdd:dd"@[0], s[q + 0]));
        lemma_found_offset(s, q, q + 1, q + 4);
    } else {
        assert(fits_mark("sdddd"@[0], s[q + 0]));
        lemma_found_offset(s, q, q + 1, q + 3);
    }
}

pub(crate) proof fn lemma_first_is_first(f: DetectedFormat, s: Seq<char>, j: int, i: int)
    requires
        0 <= j,
        first_from(f, s, j) == Some(i),
    ensures
        j <= i <= s.len(),
        here(f, s, i),
        forall|k: int| j <= k < i ==> !#[trigger] here(f, s, k),
    decreases s.len() + 1 - j,
{
    if j <= s.len() && !here(f, s, j) {
        lemma_first_is_first(f, s, j + 1, i);
    }
}

pub(crate) proof fn lemma_first_reached(f: DetectedFormat, s: Seq<char>, j: int, i: int)
    requires
        0 <= j <= i <= s.len(),
        here(f, s, i),
        forall|k: int| j <= k < i ==> !#[trigger] here(f, s, k),
    ensures
        first_from(f, s, j) == Some(i),
    decreases i - j,
{
    if j < i {
        assert(!here(f, s, j));
        lemma_first_reached(f, s, j + 1, i);
    }
}

proof fn lemma_alike_iso_shape(x: Seq<char>, y: Seq<char>, k: int)
    requires
        alike(x, y),
        fits(x, k, "dddd-dd-ddtdd:dd:dd"@),
    ensures
        fits(y, k, "dddd-dd-ddtdd:dd:dd"@),
{
    let shape = "dddd-dd-ddtdd:dd:dd"@;
    reveal_strlit("dddd-dd-ddtdd:dd:dd");
    assert forall|j: int| 0 <= j < shape.len() implies fits_mark(#[trigger] shape[j], y[k + j]) by {
        assert(fits_mark(shape[j], x[k + j]));
    }
}

/// A detector finds its own format.
pub(crate) proof fn lemma_found_format(f: DetectedFormat, s: Seq<char>)
    requires
        found(f, s) is Some,
    ensures
        found(f, s)->0.format == f,
{
}

proof fn lemma_later_detectors(s: Seq<char>, k: int)
    requires
        1 <= k,
        scan_from(s, k) is Some,
    ensures
        scan_from(s, k)->0.format != DetectedFormat::Iso,
    decreases 8 - k,
{
    if k < 8 {
        if found(detector(k), s) is Some {
            lemma_found_format(detector(k), s);
        } else {
            lemma_later_detectors(s, k + 1);
        }
    }
}

proof fn lemma_scan_iso(s: Seq<char>)
    requires
        scan(s) is Some,
        scan(s)->0.format == DetectedFormat::Iso,
    ensures
        found(DetectedFormat::Iso, s) == scan(s),
{
    if found(DetectedFormat::Iso, s) is None {
        lemma_later_detectors(s, 1);
    }
}

proof fn lemma_replaced_alike(s: Seq<char>, i: int, x: Seq<char>)
    requires
        iso_here(s, i),
        iso_reading(s, i) is Some,
        0 <= i <= iso_reading(s, i)->0.end <= s.len(),
        ({
            let r = iso_reading(s, i)->0;
            let b = replaced(s, i, r.end, x);
            &&& iso_here(b, i)
            &&& iso_reading(b, i) is Some
            &&& iso_reading(b, i)->0.aux == r.aux
            &&& iso_reading(b, i)->0.end == i + x.len()
        }),
    ensures
        alike(s, replaced(s, i, iso_reading(s, i)->0.end, x)),
        x.len() == iso_reading(s, i)->0.end - i,
        forall|k: int|
            0 <= k < i ==> s[k] == #[trigger] replaced(s, i, iso_reading(s, i)->0.end, x)[k],
{
    let e = iso_reading(s, i)->0.end;
    let b = replaced(s, i, e, x);
    lemma_replaced(s, i, e, x);
    lemma_same_details_alike(s, b, i);
    assert forall|k: int| 0 <= k < s.len() implies #[trigger] s[k] == b[k] || (digit(s[k])
        && digit(b[k])) by {
        if k < i {
            assert(b[k] == s[k]);
        } else if k >= e {
            assert(b[k] == s[k]);
        }
    }
}

proof fn lemma_found_in_alike(s: Seq<char>, b: Seq<char>, i: int)
    requires
        first_from(DetectedFormat::Iso, s, 0) == Some(i),
        alike(s, b),
        forall|k: int| 0 <= k < i ==> s[k] == #[trigger] b[k],
        iso_here(b, i),
    ensures
        first_from(DetectedFormat::Iso, b, 0) == Some(i),
{
    lemma_first_is_first(DetectedFormat::Iso, s, 0, i);
    assert forall|k: int| 0 <= k < i implies !#[trigger] here(DetectedFormat::Iso, b, k) by {
        assert(!here(DetectedFormat::Iso, s, k));
        assert(b[k] == s[k]);
        if k > 0 {
            assert(b[k - 1] == s[k - 1]);
        }
        assert(boundary(b, k) == boundary(s, k));
        if iso_here(b, k) {
            assert(alike(b, s));
            lemma_alike_iso_shape(b, s, k);
        }
    }
    lemma_first_reached(DetectedFormat::Iso, b, 0, i);
}

/// Where an ISO timestamp is found first, that is what a scan finds.
proof fn lemma_scan_of_first_iso(s: Seq<char>, i: int)
    requires
        first_from(DetectedFormat::Iso, s, 0) == Some(i),
        iso_reading(s, i) is Some,
    ensures
        scan(s) == iso_reading(s, i),
{
    assert(found(DetectedFormat::Iso, s) == iso_reading(s, i));
}

/// Where a scan finds an ISO timestamp, it is the first.
proof fn lemma_first_iso_of_scan(s: Seq<char>)
    requires
        scan(s) is Some,
        scan(s)->0.format == DetectedFormat::Iso,
    ensures
        ({
            let i = scan(s)->0.start;
            &&& first_from(DetectedFormat::Iso, s, 0) == Some(i)
            &&& iso_here(s, i)
            &&& iso_reading(s, i) == scan(s)
            &&& 0 <= i <= scan(s)->0.end <= s.len()
        }),
{
    lemma_scan_iso(s);
    let i = first_from(DetectedFormat::Iso, s, 0)->0;
    lemma_first_is_first(DetectedFormat::Iso, s, 0, i);
    assert(here(DetectedFormat::Iso, s, i));
    lemma_found_iso(s, i);
}

/// A text in the place of the first ISO timestamp that reads as one with the same
/// details is found there.
proof fn lemma_replacement_is_found(s: Seq<char>, i: int, x: Seq<char>)
    requires
        first_from(DetectedFormat::Iso, s, 0) == Some(i),
        iso_here(s, i),
        iso_reading(s, i) is Some,
        0 <= i <= iso_reading(s, i)->0.end <= s.len(),
        ({
            let r = iso_reading(s, i)->0;
            let b = replaced(s, i, r.end, x);
            &&& iso_here(b, i)
            &&& iso_reading(b, i) is Some
            &&& iso_reading(b, i)->0.aux == r.aux
            &&& iso_reading(b, i)->0.end == i + x.len()
        }),
    ensures
        ({
            let r = iso_reading(s, i)->0;
            let b = replaced(s, i, r.end, x);
            &&& alike(s, b)
            &&& i + x.len() == r.end
            &&& scan(b) == iso_reading(b, i)
        }),
{
    let b = replaced(s, i, iso_reading(s, i)->0.end, x);
    lemma_replaced_alike(s, i, x);
    lemma_found_in_alike(s, b, i);
    lemma_scan_of_first_iso(b, i);
}

/// Only digits differ, and the line reads the same: where an ISO timestamp is
/// found in a line, the line with the new one in its place has the same length
/// and differs from the old in digits only; and the timestamp that is found in
/// it has the same span, format and details, and says the new instant, cut to
/// the digits of the fraction.
pub proof fn lemma_iso_transform_keeps_shape(s: Seq<char>, t: int, off: int)
    requires
        scan(s) is Some,
        scan(s)->0.format == DetectedFormat::Iso,
        in_range(t),
        valid_offset(off),
        ({
            let (sep, frac, mark, tz) = iso_details(scan(s)->0.aux);
            1000 <= civil(iso_shown(t, off, tz)).year <= 9999
        }),
    ensures
        ({
            let r = scan(s)->0;
            let (sep, frac, mark, tz) = iso_details(r.aux);
            let b = replaced(s, r.start, r.end, rendered(r.format, r.aux, false, t, off));
            &&& alike(s, b)
            &&& scan(b) == Some(
                Reading {
                    moment: match tz {
                        Some(z) => Moment::Exact {
                            secs: whole_seconds(t) as i64,
                            nanos: cut(subsec(t), frac) as u32,
                        },
                        None => Moment::Zoneless {
                            secs: (whole_seconds(t) + off) as i64,
                            nanos: cut(subsec(t), frac) as u32,
                        },
                    },
                    ..r
                },
            )
        }),
{
    let r = scan(s)->0;
    let i = r.start;
    lemma_first_iso_of_scan(s);
    lemma_iso_in_place(s, i, t, off);
    lemma_replacement_is_found(s, i, rendered(DetectedFormat::Iso, r.aux, false, t, off));
}

/// The moment that a rendered timestamp says.
pub open spec fn written(f: DetectedFormat, aux: Aux, in_millis: bool, t: int, off: int) -> Moment {
    let secs = whole_seconds(t);
    let nanos = subsec(t);
    let c = civil(secs + off);
    match f {
        DetectedFormat::Iso => {
            let (sep, frac, mark, tz) = iso_details(aux);
            match tz {
                Some(z) => Moment::Exact { secs: secs as i64, nanos: cut(nanos, frac) as u32 },
                None => Moment::Zoneless {
                    secs: (secs + off) as i64,
                    nanos: cut(nanos, frac) as u32,
                },
            }
        },
        DetectedFormat::ApacheCtf => Moment::Zoneless { secs: (secs + off) as i64, nanos: 0 },
        DetectedFormat::ApacheClf => Moment::Exact { secs: secs as i64, nanos: 0 },
        DetectedFormat::Epoch => Moment::Exact {
            secs: secs as i64,
            nanos: if in_millis {
                to_millis(nanos) as u32
            } else {
                0
            },
        },
        DetectedFormat::SyslogNoYear => yearless_moment(c, 0),
        DetectedFormat::HealthApp => Moment::Zoneless {
            secs: (secs + off) as i64,
            nanos: to_millis(nanos) as u32,
        },
        DetectedFormat::Android => yearless_moment(c, to_millis(nanos)),
        DetectedFormat::Proxifier => yearless_moment(c, 0),
    }
}

proof fn lemma_cut(nanos: int, frac: int)
    requires
        0 <= nanos,
        0 <= frac,
    ensures
        0 <= cut(nanos, frac) <= nanos,
{
    let k = if frac < 6 {
        frac
    } else {
        6
    };
    let p = pow10(6 - k);
    let a = nanos / 1000;
    lemma_pow10_monotone(0, 6 - k);
    vstd::arithmetic::div_mod::lemma_fundamental_div_mod(a, p);
    vstd::arithmetic::div_mod::lemma_mod_bound(a, p);
    vstd::arithmetic::div_mod::lemma_div_pos_is_pos(a, p);
    assert(0 <= a / p * p <= a) by (nonlinear_arith)
        requires
            a == p * (a / p) + a % p,
            0 <= a % p,
            0 <= a / p,
            1 <= p,
    ;
}

/// What a rendered timestamp with a year says is the instant that it was rendered
/// from, to the precision of the format, where the local clock has the same offset
/// when it is read as when it was rendered.
pub proof fn lemma_written_settles(
    f: DetectedFormat,
    aux: Aux,
    in_millis: bool,
    t: int,
    off: int,
    now: int,
    offs: Seq<Option<i32>>,
)
    requires
        in_range(t),
        valid_offset(off),
        !(written(f, aux, in_millis, t, off) is Yearless),
    ensures
        ({
            let u = settled(written(f, aux, in_millis, t, off), off, now, offs);
            u <= t && whole_seconds(u) == whole_seconds(t)
        }),
{
    let nanos = subsec(t);
    lemma_cut(nanos, iso_details(aux).1);
}

/// The format can say the instant: its year has four digits, or its epoch is
/// one that detection accepts.
pub open spec fn sayable(f: DetectedFormat, aux: Aux, in_millis: bool, t: int, off: int) -> bool {
    let secs = whole_seconds(t);
    let c = civil(secs + off);
    match f {
        DetectedFormat::Iso => 1000 <= civil(iso_shown(t, off, iso_details(aux).3)).year <= 9999,
        DetectedFormat::ApacheCtf => 1000 <= c.year <= 9999,
        DetectedFormat::HealthApp => 1000 <= c.year <= 9999,
        DetectedFormat::ApacheClf => 0 <= civil(secs + clf_zone(aux).offset_of()).year <= 9999,
        DetectedFormat::Epoch => if in_millis {
            1_000_000_000_000 <= t / 1_000_000 <= 2_145_916_800_000
        } else {
            100_000_000 <= secs <= 2_145_916_800
        },
        _ => true,
    }
}

/// An epoch of more than ten digits is one of milliseconds.
pub open spec fn counts_millis(r: Reading) -> bool {
    r.end - r.start > 10
}

pub(crate) proof fn lemma_span(f: DetectedFormat, s: Seq<char>, i: int)
    requires
        here(f, s, i),
        reading(f, s, i) is Some,
    ensures
        0 <= i,
        reading(f, s, i)->0.start == i,
        i <= reading(f, s, i)->0.end <= s.len(),
{
    reveal_strlit("[www www ");
    reveal_strlit(" dd:dd:dd dddd]");
    reveal_strlit("dd/www/dddd:dd:dd:dd sdddd");
    reveal_strlit("aaa ");
    reveal_strlit(" dd:dd:dd");
    reveal_strlit("dddddddd-dd:dd:dd:ddd");
    reveal_strlit("[dd.dd dd:dd:dd]");
    reveal_strlit("dd-dd dd:dd:dd.ddd");
    match f {
        DetectedFormat::Iso => {
            lemma_found_iso(s, i);
        },
        DetectedFormat::ApacheCtf => {
            lemma_digit_run_stops(s, day_start(s, i + 9), 2);
        },
        DetectedFormat::SyslogNoYear => {
            lemma_digit_run_stops(s, day_start(s, 4), 2);
        },
        _ => {},
    }
}

/// The digits at the edges of a timestamp make its edges word boundaries, so no
/// word goes on there.
pub(crate) proof fn lemma_edges(f: DetectedFormat, s: Seq<char>, i: int)
    requires
        here(f, s, i),
        reading(f, s, i) is Some,
    ensures
        f == DetectedFormat::HealthApp || f == DetectedFormat::Android ==> !word_at(s, i - 1)
            && !word_at(s, reading(f, s, i)->0.end),
        f == DetectedFormat::ApacheClf ==> !word_at(s, i + 26),
{
    lemma_span(f, s, i);
    if f == DetectedFormat::HealthApp {
        lemma_number_digits(s, i, i + 4);
        lemma_number_digits(s, i + 18, i + 21);
        assert(ascii_digit(s[i]) && ascii_digit(s[i + 20]));
    } else if f == DetectedFormat::Android {
        lemma_number_digits(s, i, i + 2);
        lemma_number_digits(s, i + 15, i + 18);
        assert(ascii_digit(s[i]) && ascii_digit(s[i + 17]));
    } else if f == DetectedFormat::ApacheClf {
        lemma_number_digits(s, i + 24, i + 26);
        assert(ascii_digit(s[i + 25]));
    }
}

/// The timestamp at `i`, replaced by the instant `t` in its format.
pub open spec fn retimed(f: DetectedFormat, s: Seq<char>, i: int, t: int, off: int) -> Seq<char> {
    let r = reading(f, s, i)->0;
    replaced(s, i, r.end, rendered(f, r.aux, counts_millis(r), t, off))
}

/// The replacement stands at `i` as a timestamp of the same format with the
/// same details, and says the instant `t` to the precision of the format.
pub open spec fn reads_back(f: DetectedFormat, s: Seq<char>, i: int, t: int, off: int) -> bool {
    let r = reading(f, s, i)->0;
    let ms = counts_millis(r);
    let b = retimed(f, s, i, t, off);
    &&& here(f, b, i)
    &&& reading(f, b, i) == Some(
        Reading {
            start: i,
            end: i + rendered(f, r.aux, ms, t, off).len(),
            format: f,
            aux: r.aux,
            moment: written(f, r.aux, ms, t, off),
        },
    )
}

/// A timestamp was found at `i`, and its format can say the instant.
pub open spec fn retimable(f: DetectedFormat, s: Seq<char>, i: int, t: int, off: int) -> bool {
    &&& here(f, s, i)
    &&& reading(f, s, i) is Some
    &&& in_range(t)
    &&& valid_offset(off)
    &&& sayable(f, reading(f, s, i)->0.aux, counts_millis(reading(f, s, i)->0), t, off)
}

/// What stands beside a replaced part stands there still.
proof fn lemma_around(s: Seq<char>, i: int, e: int, x: Seq<char>)
    requires
        0 <= i <= e <= s.len(),
    ensures
        ({
            let b = replaced(s, i, e, x);
            &&& occurs_at(b, x, i)
            &&& word_at(b, i - 1) == word_at(s, i - 1)
            &&& word_at(b, i + x.len()) == word_at(s, e)
            &&& i > 0 ==> b[i - 1] == s[i - 1]
            &&& i + x.len() == b.len() <==> e == s.len()
            &&& i + x.len() < b.len() ==> b[i + x.len()] == s[e]
        }),
{
    lemma_replaced(s, i, e, x);
}

#[verifier::rlimit(30)]
proof fn lemma_neighbours(f: DetectedFormat, s: Seq<char>, i: int, t: int, off: int)
    requires
        retimable(f, s, i, t, off),
    ensures
        ({
            let r = reading(f, s, i)->0;
            let x = rendered(f, r.aux, counts_millis(r), t, off);
            let b = retimed(f, s, i, t, off);
            &&& occurs_at(b, x, i)
            &&& word_at(b, i - 1) == word_at(s, i - 1)
            &&& word_at(b, i + x.len()) == word_at(s, r.end)
            &&& i > 0 ==> b[i - 1] == s[i - 1]
            &&& i + x.len() == b.len() <==> r.end == s.len()
            &&& i + x.len() < b.len() ==> b[i + x.len()] == s[r.end]
            &&& f == DetectedFormat::HealthApp || f == DetectedFormat::Android ==> !word_at(
                s,
                i - 1,
            ) && !word_at(s, r.end)
            &&& f == DetectedFormat::ApacheClf ==> !word_at(s, r.end)
            &&& shows(civil(whole_seconds(t) + off), whole_seconds(t) + off)
        }),
{
    let r = reading(f, s, i)->0;
    let x = rendered(f, r.aux, counts_millis(r), t, off);
    lemma_span(f, s, i);
    lemma_edges(f, s, i);
    lemma_around(s, i, r.end, x);
    lemma_civil_shows(whole_seconds(t) + off);
}

proof fn lemma_clf_in_place(s: Seq<char>, i: int, t: int, off: int)
    requires
        retimable(DetectedFormat::ApacheClf, s, i, t, off),
    ensures
        reads_back(DetectedFormat::ApacheClf, s, i, t, off),
{
    let f = DetectedFormat::ApacheClf;
    lemma_neighbours(f, s, i, t, off);
    let secs = whole_seconds(t);
    let z = clf_zone(reading(f, s, i)->0.aux);
    reveal_strlit("dd/www/dddd:dd:dd:dd sdddd");
    assert(fits_mark("dd/www/dddd:dd:dd:dd sdddd"@[21], s[i + 21]));
    lemma_found_offset(s, i + 21, i + 22, i + 24);
    lemma_clf_len(z, secs);
    lemma_clf_reads_back(retimed(f, s, i, t, off), i, z, secs);
}

proof fn lemma_epoch_in_place(s: Seq<char>, i: int, t: int, off: int)
    requires
        retimable(DetectedFormat::Epoch, s, i, t, off),
    ensures
        reads_back(DetectedFormat::Epoch, s, i, t, off),
{
    let f = DetectedFormat::Epoch;
    lemma_neighbours(f, s, i, t, off);
    let n = if counts_millis(reading(f, s, i)->0) {
        t / 1_000_000
    } else {
        whole_seconds(t)
    };
    lemma_decimal_width(n);
    lemma_millis_parts(t);
    lemma_epoch_reads_back(retimed(f, s, i, t, off), i, n);
}

proof fn lemma_ctf_in_place(s: Seq<char>, i: int, t: int, off: int)
    requires
        retimable(DetectedFormat::ApacheCtf, s, i, t, off),
    ensures
        reads_back(DetectedFormat::ApacheCtf, s, i, t, off),
{
    let f = DetectedFormat::ApacheCtf;
    lemma_neighbours(f, s, i, t, off);
    let local = whole_seconds(t) + off;
    lemma_ctf_reads_back(retimed(f, s, i, t, off), i, civil(local), local);
}

proof fn lemma_syslog_in_place(s: Seq<char>, i: int, t: int, off: int)
    requires
        retimable(DetectedFormat::SyslogNoYear, s, i, t, off),
    ensures
        reads_back(DetectedFormat::SyslogNoYear, s, i, t, off),
{
    let f = DetectedFormat::SyslogNoYear;
    lemma_neighbours(f, s, i, t, off);
    let local = whole_seconds(t) + off;
    lemma_syslog_reads_back(retimed(f, s, i, t, off), civil(local), local);
}

proof fn lemma_health_in_place(s: Seq<char>, i: int, t: int, off: int)
    requires
        retimable(DetectedFormat::HealthApp, s, i, t, off),
    ensures
        reads_back(DetectedFormat::HealthApp, s, i, t, off),
{
    let f = DetectedFormat::HealthApp;
    lemma_neighbours(f, s, i, t, off);
    let local = whole_seconds(t) + off;
    lemma_health_reads_back(retimed(f, s, i, t, off), i, civil(local), local, subsec(t));
}

proof fn lemma_android_in_place(s: Seq<char>, i: int, t: int, off: int)
    requires
        retimable(DetectedFormat::Android, s, i, t, off),
    ensures
        reads_back(DetectedFormat::Android, s, i, t, off),
{
    let f = DetectedFormat::Android;
    lemma_neighbours(f, s, i, t, off);
    let local = whole_seconds(t) + off;
    lemma_android_reads_back(retimed(f, s, i, t, off), i, civil(local), local, subsec(t));
}

proof fn lemma_proxifier_in_place(s: Seq<char>, i: int, t: int, off: int)
    requires
        retimable(DetectedFormat::Proxifier, s, i, t, off),
    ensures
        reads_back(DetectedFormat::Proxifier, s, i, t, off),
{
    let f = DetectedFormat::Proxifier;
    lemma_neighbours(f, s, i, t, off);
    let local = whole_seconds(t) + off;
    lemma_proxifier_reads_back(retimed(f, s, i, t, off), i, civil(local), local);
}

/// What is rendered in the place of a timestamp that was found stands there as
/// a timestamp of the same format with the same details, and says the instant
/// that was rendered, to the precision of the format.
pub proof fn lemma_transform_reads_back(f: DetectedFormat, s: Seq<char>, i: int, t: int, off: int)
    requires
        retimable(f, s, i, t, off),
    ensures
        reads_back(f, s, i, t, off),
{
    match f {
        DetectedFormat::Iso => {
            let r = reading(f, s, i)->0;
            assert(rendered(f, r.aux, counts_millis(r), t, off) == rendered(
                f,
                r.aux,
                false,
                t,
                off,
            ));
            lemma_iso_in_place(s, i, t, off);
        },
        DetectedFormat::ApacheCtf => lemma_ctf_in_place(s, i, t, off),
        DetectedFormat::ApacheClf => lemma_clf_in_place(s, i, t, off),
        DetectedFormat::Epoch => lemma_epoch_in_place(s, i, t, off),
        DetectedFormat::SyslogNoYear => lemma_syslog_in_place(s, i, t, off),
        DetectedFormat::HealthApp => lemma_health_in_place(s, i, t, off),
        DetectedFormat::Android => lemma_android_in_place(s, i, t, off),
        DetectedFormat::Proxifier => lemma_proxifier_in_place(s, i, t, off),
    }
}

/// The milliseconds of an instant are those of its seconds and of the rest.
proof fn lemma_millis_parts(t: int)
    ensures
        t / 1_000_000 / 1000 == whole_seconds(t),
        t / 1_000_000 % 1000 == subsec(t) / 1_000_000,
{
}

proof fn lemma_clf_len(z: Zone, secs: int)
    requires
        in_range(secs * 1_000_000_000),
        z.style_of() matches ZoneStyle::Digits { colon, .. } && !colon,
        written_zone(z),
        0 <= civil(secs + z.offset_of()).year <= 9999,
    ensures
        (clf_text(civil(secs + z.offset_of())) + zone_text(z)).len() == 26,
{
    let x = clf_text(civil(secs + z.offset_of())) + zone_text(z);
    assert(x.subrange(0, x.len() as int) =~= x);
    let off = z.offset_of();
    let c = civil(secs + off);
    lemma_civil_shows(secs + off);
    assert(signed_padded(c.year as int, 4) == padded(c.year as int, 4));
    lemma_four_wide(c.year as int);
    lemma_month_name(c.month as int);
    lemma_two_wide(c.day as int);
    lemma_own_clock_text(c);
    lemma_two_wide(magnitude(off) / 3600);
    lemma_two_wide(magnitude(off) % 3600 / 60);
}

} // verus!
