//! Timestamps in lines: which are looked for and in which order, where their
//! parts stand, and what each part means.

use vstd::prelude::*;

use vstd::utf8::encode_utf8;

use crate::classes::{boundary, fits, fits_mark, word};
use crate::clock::{seconds_at, valid_clock, valid_date, UtcTime};
use crate::detectors::{
    android_here, android_reading, clf_here, clf_reading, ctf_here, ctf_reading, day_end,
    day_start, digit_run, digits_end, epoch_here, epoch_reading, first_from, found, fraction_end,
    fraction_len, fraction_nanos, health_here, health_reading, here, iso_here, iso_reading,
    month_of, proxifier_here, proxifier_reading, reading, scan, scan_from, signed_offset,
    syslog_here, syslog_reading, zone_at, zone_len, Reading,
};
use crate::formats::{Aux, DetectedFormat, Moment, Zone, ZoneStyle};
use crate::text::{all_digits, ascii_digit, digit_value, digits_value, number, pow10, white_space};
use crate::timestamp::{detect, parse, TsMatch};

verus! {

broadcast use Zone::lemma_of;

// ---------------------------------------------------------------------------
// The order of the search
// ---------------------------------------------------------------------------

/// Of two formats in a line, the more specific is detected: ISO before both of
/// Apache's, those before the epoch, then syslog, HealthApp, Proxifier, and
/// Android last.
pub proof fn lemma_formats_are_tried_in_order(s: Seq<char>)
    ensures
        found(DetectedFormat::Iso, s) is Some ==> scan(s) == found(DetectedFormat::Iso, s),
        found(DetectedFormat::Iso, s) is None ==> {
            &&& found(DetectedFormat::ApacheCtf, s) is Some ==> scan(s) == found(
                DetectedFormat::ApacheCtf,
                s,
            )
            &&& found(DetectedFormat::ApacheCtf, s) is None ==> {
                &&& found(DetectedFormat::ApacheClf, s) is Some ==> scan(s) == found(
                    DetectedFormat::ApacheClf,
                    s,
                )
                &&& found(DetectedFormat::ApacheClf, s) is None ==> scan(s) == after_apache(s)
            }
        },
{
    reveal_with_fuel(scan_from, 9);
}

/// What is found in a line without a timestamp of the first three formats.
pub open spec fn after_apache(s: Seq<char>) -> Option<Reading> {
    if found(DetectedFormat::Epoch, s) is Some {
        found(DetectedFormat::Epoch, s)
    } else if found(DetectedFormat::SyslogNoYear, s) is Some {
        found(DetectedFormat::SyslogNoYear, s)
    } else if found(DetectedFormat::HealthApp, s) is Some {
        found(DetectedFormat::HealthApp, s)
    } else if found(DetectedFormat::Proxifier, s) is Some {
        found(DetectedFormat::Proxifier, s)
    } else {
        found(DetectedFormat::Android, s)
    }
}

/// What is detected in a line is the timestamp that the search finds, with its
/// format; its year is inferred exactly when it is not in the line.
pub proof fn lemma_detection_is_the_search(
    line: &str,
    m: Option<TsMatch>,
    p: Option<(UtcTime, DetectedFormat, bool)>,
)
    requires
        call_ensures(detect, (line,), m),
        call_ensures(parse, (line,), p),
    ensures
        m is Some <==> scan(line@) is Some,
        p is Some <==> scan(line@) is Some,
        m matches Some(m) ==> m.format == scan(line@)->0.format && m.aux == scan(line@)->0.aux,
        m matches Some(m) ==> (m.year_inferred <==> scan(line@)->0.moment is Yearless),
        p matches Some((ts, f, inferred)) ==> f == scan(line@)->0.format && (inferred
            <==> scan(line@)->0.moment is Yearless),
        m matches Some(m) ==> m.start == encode_utf8(line@.take(scan(line@)->0.start)).len()
            && m.end == encode_utf8(line@.take(scan(line@)->0.end)).len(),
        m matches Some(m) ==> (scan(line@)->0.moment matches Moment::Exact { secs, nanos }
            ==> m.ts@ == secs * 1_000_000_000 + nanos),
        p matches Some((ts, f, inferred)) ==> (scan(line@)->0.moment matches Moment::Exact {
            secs,
            nanos,
        } ==> ts@ == secs * 1_000_000_000 + nanos),
{
}

/// The marks of a shape, for the characters of ASCII: a digit, a character of a
/// word, a letter, the separator of date and time, a sign, or the mark itself.
pub proof fn lemma_marks_of_shapes(c: char, m: char)
    requires
        (c as int) < 128,
    ensures
        fits_mark('d', c) <==> '0' <= c <= '9',
        fits_mark('w', c) <==> is_word_letter(c),
        fits_mark('a', c) <==> 'a' <= c <= 'z' || 'A' <= c <= 'Z',
        fits_mark('t', c) <==> c == 'T' || c == ' ',
        fits_mark('s', c) <==> c == '+' || c == '-',
        m != 'd' && m != 'w' && m != 'a' && m != 't' && m != 's' ==> (fits_mark(m, c) <==> c == m),
{
}

/// Of two timestamps of a format in a line, the first counts: where one stands at
/// `i` and none before, the search ends there.
pub proof fn lemma_first_timestamp_counts(f: DetectedFormat, s: Seq<char>, i: int)
    requires
        0 <= i <= s.len(),
        here(f, s, i),
        forall|k: int| 0 <= k < i ==> !#[trigger] here(f, s, k),
    ensures
        first_from(f, s, 0) == Some(i),
        found(f, s) == reading(f, s, i),
{
    lemma_nothing_before(f, s, 0, i);
}

/// Every format is looked for by its own shape and read by its own parts.
pub proof fn lemma_formats_have_their_shapes(s: Seq<char>, i: int)
    ensures
        here(DetectedFormat::Iso, s, i) == iso_here(s, i),
        here(DetectedFormat::ApacheCtf, s, i) == ctf_here(s, i),
        here(DetectedFormat::ApacheClf, s, i) == clf_here(s, i),
        here(DetectedFormat::Epoch, s, i) == epoch_here(s, i),
        here(DetectedFormat::SyslogNoYear, s, i) == syslog_here(s, i),
        here(DetectedFormat::HealthApp, s, i) == health_here(s, i),
        here(DetectedFormat::Android, s, i) == android_here(s, i),
        here(DetectedFormat::Proxifier, s, i) == proxifier_here(s, i),
        reading(DetectedFormat::Iso, s, i) == iso_reading(s, i),
        reading(DetectedFormat::ApacheCtf, s, i) == ctf_reading(s, i),
        reading(DetectedFormat::ApacheClf, s, i) == clf_reading(s, i),
        reading(DetectedFormat::Epoch, s, i) == epoch_reading(s, i),
        reading(DetectedFormat::SyslogNoYear, s, i) == syslog_reading(s, i),
        reading(DetectedFormat::HealthApp, s, i) == health_reading(s, i),
        reading(DetectedFormat::Android, s, i) == android_reading(s, i),
        reading(DetectedFormat::Proxifier, s, i) == proxifier_reading(s, i),
{
}

proof fn lemma_nothing_before(f: DetectedFormat, s: Seq<char>, k: int, i: int)
    requires
        0 <= k <= i <= s.len(),
        here(f, s, i),
        forall|j: int| k <= j < i ==> !#[trigger] here(f, s, j),
    ensures
        first_from(f, s, k) == Some(i),
    decreases i - k,
{
    if k < i {
        assert(!here(f, s, k));
        lemma_nothing_before(f, s, k + 1, i);
    }
}

/// A line in which no position has a timestamp of the format has none.
pub proof fn lemma_no_timestamp_is_found(f: DetectedFormat, s: Seq<char>, k: int)
    requires
        0 <= k,
        forall|j: int| k <= j <= s.len() ==> !#[trigger] here(f, s, j),
    ensures
        first_from(f, s, k) is None,
        k == 0 ==> found(f, s) is None,
    decreases s.len() + 1 - k,
{
    if k <= s.len() {
        assert(!here(f, s, k));
        lemma_no_timestamp_is_found(f, s, k + 1);
    }
}

// ---------------------------------------------------------------------------
// Parts
// ---------------------------------------------------------------------------

/// The two digits at `p`, as a number.
pub open spec fn two(s: Seq<char>, p: int) -> int {
    10 * (s[p] as int - '0' as int) + (s[p + 1] as int - '0' as int)
}

/// The four digits at `p`, as a number.
pub open spec fn four(s: Seq<char>, p: int) -> int {
    100 * two(s, p) + two(s, p + 2)
}

/// The three digits at `p`, as a number.
pub open spec fn three(s: Seq<char>, p: int) -> int {
    10 * two(s, p) + (s[p + 2] as int - '0' as int)
}

/// From `p` to `q` stand digits.
pub open spec fn digits_at(s: Seq<char>, p: int, q: int) -> bool {
    0 <= p <= q <= s.len() && forall|k: int| p <= k < q ==> '0' <= #[trigger] s[k] <= '9'
}

/// Characters stand for a number exactly when all of them are digits of ASCII.
pub proof fn lemma_numbers_are_digits(s: Seq<char>, p: int, q: int)
    requires
        0 <= p <= q <= s.len(),
    ensures
        number(s, p, q) is Some <==> digits_at(s, p, q),
{
    let t = s.subrange(p, q);
    assert(forall|k: int| 0 <= k < t.len() ==> #[trigger] t[k] == s[p + k]);
    if all_digits(t) {
        assert forall|k: int| p <= k < q implies '0' <= #[trigger] s[k] <= '9' by {
            assert(ascii_digit(t[k - p]));
        }
    }
}

#[verifier::rlimit(40)]
proof fn lemma_numbers(s: Seq<char>, p: int)
    ensures
        digits_at(s, p, p + 2) ==> number(s, p, p + 2) == Some(two(s, p)),
        digits_at(s, p, p + 3) ==> number(s, p, p + 3) == Some(three(s, p)),
        digits_at(s, p, p + 4) ==> number(s, p, p + 4) == Some(four(s, p)),
{
    reveal_with_fuel(digits_value, 5);
    let t2 = s.subrange(p, p + 2);
    let t3 = s.subrange(p, p + 3);
    let t4 = s.subrange(p, p + 4);
    if digits_at(s, p, p + 2) {
        assert(forall|k: int| 0 <= k < 2 ==> #[trigger] t2[k] == s[p + k]);
        assert(t2.drop_last()[0] == s[p]);
    }
    if digits_at(s, p, p + 3) {
        assert(forall|k: int| 0 <= k < 3 ==> #[trigger] t3[k] == s[p + k]);
        assert(t3.drop_last().drop_last()[0] == s[p]);
    }
    if digits_at(s, p, p + 4) {
        assert(forall|k: int| 0 <= k < 4 ==> #[trigger] t4[k] == s[p + k]);
        assert(t4.drop_last().drop_last().drop_last()[0] == s[p]);
    }
}

/// There is such a date and time.
pub open spec fn on_calendar(y: int, m: int, d: int, h: int, mi: int, sec: int) -> bool {
    valid_date(y, m, d) && valid_clock(h, mi, sec)
}

/// An offset is its hours and minutes, to the east behind a plus sign and to the
/// west behind a minus sign; there are no more than 23 hours and 59 minutes.
pub proof fn lemma_offsets_have_signs(s: Seq<char>, sign: int, h: int, m: int)
    requires
        digits_at(s, h, h + 2),
        digits_at(s, m, m + 2),
    ensures
        two(s, h) <= 23 && two(s, m) <= 59 && s[sign] == '+' ==> signed_offset(s, sign, h, m)
            == Some(two(s, h) * 3600 + two(s, m) * 60),
        two(s, h) <= 23 && two(s, m) <= 59 && s[sign] == '-' ==> signed_offset(s, sign, h, m)
            == Some(-(two(s, h) * 3600 + two(s, m) * 60)),
        two(s, h) > 23 || two(s, m) > 59 ==> signed_offset(s, sign, h, m) is None,
{
    lemma_numbers(s, h);
    lemma_numbers(s, m);
}

/// Each of the first six digits of a fraction counts for its tenths, hundredths
/// and so on of a second, and the digits behind them for nothing.
#[verifier::rlimit(40)]
pub proof fn lemma_fraction_digits_have_weights(s: Seq<char>, p: int, n: int)
    requires
        0 <= n <= 8,
        digits_at(s, p, p + n + 1),
    ensures
        fraction_nanos(s, p, 0) == 0,
        n >= 6 ==> fraction_nanos(s, p, n + 1) == fraction_nanos(s, p, n),
        n < 6 ==> fraction_nanos(s, p, n + 1) == fraction_nanos(s, p, n) + digit_value(s[p + n])
            * weight(n),
{
    reveal_with_fuel(pow10, 8);
    if n < 6 {
        let t = s.subrange(p, p + n + 1);
        assert(forall|k: int| 0 <= k < n + 1 ==> #[trigger] t[k] == s[p + k]);
        assert(all_digits(t));
        assert(t.drop_last() =~= s.subrange(p, p + n));
        assert(digits_value(t) == digits_value(s.subrange(p, p + n)) * 10 + digit_value(s[p + n]));
        assert(all_digits(s.subrange(p, p + n)));
        if n == 0 {
            assert(digits_value(s.subrange(p, p)) == 0);
        }
        let v = digits_value(s.subrange(p, p + n));
        let d = digit_value(s[p + n]);
        assert(number(s, p, p + n + 1) == Some(v * 10 + d));
        assert(number(s, p, p + n) == Some(v));
        assert(pow10(0) == 1 && pow10(1) == 10 && pow10(2) == 100 && pow10(3) == 1000);
        assert(pow10(4) == 10_000 && pow10(5) == 100_000 && pow10(6) == 1_000_000);
        assert(fraction_nanos(s, p, n + 1) == (v * 10 + d) * pow10(5 - n) * 1000);
        assert(n > 0 ==> fraction_nanos(s, p, n) == v * pow10(6 - n) * 1000);
        if n == 0 {
            assert((v * 10 + d) * 100000 * 1000 == v * 1000000 * 1000 + d * 100000000);
        }
        if n == 1 {
            assert((v * 10 + d) * 10000 * 1000 == v * 100000 * 1000 + d * 10000000);
        }
        if n == 2 {
            assert((v * 10 + d) * 1000 * 1000 == v * 10000 * 1000 + d * 1000000);
        }
        if n == 3 {
            assert((v * 10 + d) * 100 * 1000 == v * 1000 * 1000 + d * 100000);
        }
        if n == 4 {
            assert((v * 10 + d) * 10 * 1000 == v * 100 * 1000 + d * 10000);
        }
        if n == 5 {
            assert((v * 10 + d) * 1 * 1000 == v * 10 * 1000 + d * 1000);
        }
    }
}

/// A fraction is a dot or a comma and the digits behind it, up to nine of them;
/// without either there is none.
pub proof fn lemma_fractions_have_marks(s: Seq<char>, p: int, n: int)
    requires
        0 <= p <= s.len(),
        0 <= n <= 9,
    ensures
        p == s.len() || (s[p] != '.' && s[p] != ',') ==> fraction_len(s, p) == 0 && fraction_end(
            s,
            p,
        ) == p,
        p < s.len() && (s[p] == '.' || s[p] == ',') && digits_at(s, p + 1, p + 1 + n) && (n == 9
            || p + 1 + n == s.len() || ((s[p + 1 + n] as int) < 128 && !ascii_digit(
            s[p + 1 + n],
        ))) ==> fraction_len(s, p) == n && (n > 0 ==> fraction_end(s, p) == p + 1 + n),
{
    if p < s.len() && (s[p] == '.' || s[p] == ',') && digits_at(s, p + 1, p + 1 + n) && (n == 9
        || p + 1 + n == s.len() || ((s[p + 1 + n] as int) < 128 && !ascii_digit(s[p + 1 + n]))) {
        lemma_digits_are_counted(s, p + 1, n, 9);
    }
}

proof fn lemma_digits_are_counted(s: Seq<char>, p: int, n: int, max: int)
    requires
        0 <= n <= max,
        digits_at(s, p, p + n),
        n == max || p + n == s.len() || ((s[p + n] as int) < 128 && !ascii_digit(s[p + n])),
    ensures
        digit_run(s, p, max) == n,
    decreases n,
{
    if n > 0 {
        lemma_digits_are_counted(s, p + 1, n - 1, max - 1);
    }
}

/// The nanoseconds that the digit behind `n` others of a fraction stands for.
pub open spec fn weight(n: int) -> int {
    if n == 0 {
        100_000_000
    } else if n == 1 {
        10_000_000
    } else if n == 2 {
        1_000_000
    } else if n == 3 {
        100_000
    } else if n == 4 {
        10_000
    } else {
        1_000
    }
}

/// A zone is `Z` in either case for UTC, or an offset with or without a colon.
#[verifier::rlimit(40)]
pub proof fn lemma_zones_are_read(s: Seq<char>, q: int)
    requires
        0 <= q < s.len(),
    ensures
        s[q] == 'Z' ==> zone_at(s, q) == Some(Zone::of(0, ZoneStyle::UpperZ)) && zone_len(s, q)
            == 1,
        s[q] == 'z' ==> zone_at(s, q) == Some(Zone::of(0, ZoneStyle::LowerZ)) && zone_len(s, q)
            == 1,
        fits(s, q, "sdd:dd"@) && digits_at(s, q + 1, q + 3) && digits_at(s, q + 4, q + 6) && two(
            s,
            q + 1,
        ) <= 23 && two(s, q + 4) <= 59 ==> {
            &&& zone_len(s, q) == 6
            &&& zone_at(s, q) is Some
            &&& s[q] == '+' ==> zone_at(s, q)->0.offset_of() == two(s, q + 1) * 3600 + two(
                s,
                q + 4,
            ) * 60
            &&& s[q] == '-' ==> zone_at(s, q)->0.offset_of() == -(two(s, q + 1) * 3600 + two(
                s,
                q + 4,
            ) * 60)
        },
        fits(s, q, "sdddd"@) && digits_at(s, q + 1, q + 5) && two(s, q + 1) <= 23 && two(s, q + 3)
            <= 59 ==> {
            &&& zone_len(s, q) == 5
            &&& zone_at(s, q) is Some
            &&& s[q] == '+' ==> zone_at(s, q)->0.offset_of() == two(s, q + 1) * 3600 + two(
                s,
                q + 3,
            ) * 60
            &&& s[q] == '-' ==> zone_at(s, q)->0.offset_of() == -(two(s, q + 1) * 3600 + two(
                s,
                q + 3,
            ) * 60)
        },
        s[q] != 'Z' && s[q] != 'z' && s[q] != '+' && s[q] != '-' ==> zone_at(s, q) is None
            && zone_len(s, q) == 0,
{
    reveal_strlit("sdd:dd");
    reveal_strlit("sdddd");
    reveal_strlit("sdd");
    assert("sdd:dd"@[0] == 's' && "sdd:dd"@[3] == ':' && "sdddd"@[0] == 's' && "sdddd"@[3] == 'd'
        && "sdd"@[0] == 's');
    lemma_numbers(s, q + 1);
    lemma_numbers(s, q + 3);
    lemma_numbers(s, q + 4);
    if fits(s, q, "sdddd"@) {
        assert(fits_mark("sdddd"@[3], s[q + 3]));
    }
    if fits(s, q, "sdd:dd"@) {
        assert(fits_mark("sdd:dd"@[3], s[q + 3]));
    }
    assert(fits(s, q, "sdd:dd"@) ==> fits_mark("sdd:dd"@[0], s[q]));
    assert(fits(s, q, "sdddd"@) ==> fits_mark("sdddd"@[0], s[q]));
    assert(fits(s, q, "sdd"@) ==> fits_mark("sdd"@[0], s[q]));
}

// ---------------------------------------------------------------------------
// Shapes
// ---------------------------------------------------------------------------

/// A date and a time of day with `T` or a space between is found wherever a word
/// begins with it.
#[verifier::rlimit(40)]
pub proof fn lemma_iso_is_found(s: Seq<char>, i: int)
    requires
        0 <= i,
        i + 19 <= s.len(),
        digits_at(s, i, i + 4),
        s[i + 4] == '-',
        digits_at(s, i + 5, i + 7),
        s[i + 7] == '-',
        digits_at(s, i + 8, i + 10),
        s[i + 10] == 'T' || s[i + 10] == ' ',
        digits_at(s, i + 11, i + 13),
        s[i + 13] == ':',
        digits_at(s, i + 14, i + 16),
        s[i + 16] == ':',
        digits_at(s, i + 17, i + 19),
        boundary(s, i),
    ensures
        iso_here(s, i),
{
    reveal_strlit("dddd-dd-ddtdd:dd:dd");
    let shape = "dddd-dd-ddtdd:dd:dd"@;
    assert(fits_mark(shape[0], s[i + 0]));
    assert(fits_mark(shape[1], s[i + 1]));
    assert(fits_mark(shape[2], s[i + 2]));
    assert(fits_mark(shape[3], s[i + 3]));
    assert(fits_mark(shape[4], s[i + 4]));
    assert(fits_mark(shape[5], s[i + 5]));
    assert(fits_mark(shape[6], s[i + 6]));
    assert(fits_mark(shape[7], s[i + 7]));
    assert(fits_mark(shape[8], s[i + 8]));
    assert(fits_mark(shape[9], s[i + 9]));
    assert(fits_mark(shape[10], s[i + 10]));
    assert(fits_mark(shape[11], s[i + 11]));
    assert(fits_mark(shape[12], s[i + 12]));
    assert(fits_mark(shape[13], s[i + 13]));
    assert(fits_mark(shape[14], s[i + 14]));
    assert(fits_mark(shape[15], s[i + 15]));
    assert(fits_mark(shape[16], s[i + 16]));
    assert(fits_mark(shape[17], s[i + 17]));
    assert(fits_mark(shape[18], s[i + 18]));
    assert forall|k: int| 0 <= k < 19 implies fits_mark(#[trigger] shape[k], s[i + k]) by {
        assert(k == 0 || k == 1 || k == 2 || k == 3 || k == 4 || k == 5 || k == 6 || k == 7 ||
            k == 8 || k == 9 || k == 10 || k == 11 || k == 12 || k == 13 || k == 14 || k == 15 ||
            k == 16 || k == 17 || k == 18);
    }
}

/// A timestamp of the common log format is found wherever a word ends with it.
#[verifier::rlimit(40)]
pub proof fn lemma_clf_is_found(s: Seq<char>, i: int)
    requires
        0 <= i,
        i + 26 <= s.len(),
        digits_at(s, i, i + 2),
        s[i + 2] == '/',
        word(s[i + 3]),
        word(s[i + 4]),
        word(s[i + 5]),
        s[i + 6] == '/',
        digits_at(s, i + 7, i + 11),
        s[i + 11] == ':',
        digits_at(s, i + 12, i + 14),
        s[i + 14] == ':',
        digits_at(s, i + 15, i + 17),
        s[i + 17] == ':',
        digits_at(s, i + 18, i + 20),
        s[i + 20] == ' ',
        s[i + 21] == '+' || s[i + 21] == '-',
        digits_at(s, i + 22, i + 26),
        boundary(s, i + 26),
    ensures
        clf_here(s, i),
{
    reveal_strlit("dd/www/dddd:dd:dd:dd sdddd");
    let shape = "dd/www/dddd:dd:dd:dd sdddd"@;
    assert(fits_mark(shape[0], s[i + 0]));
    assert(fits_mark(shape[1], s[i + 1]));
    assert(fits_mark(shape[2], s[i + 2]));
    assert(fits_mark(shape[3], s[i + 3]));
    assert(fits_mark(shape[4], s[i + 4]));
    assert(fits_mark(shape[5], s[i + 5]));
    assert(fits_mark(shape[6], s[i + 6]));
    assert(fits_mark(shape[7], s[i + 7]));
    assert(fits_mark(shape[8], s[i + 8]));
    assert(fits_mark(shape[9], s[i + 9]));
    assert(fits_mark(shape[10], s[i + 10]));
    assert(fits_mark(shape[11], s[i + 11]));
    assert(fits_mark(shape[12], s[i + 12]));
    assert(fits_mark(shape[13], s[i + 13]));
    assert(fits_mark(shape[14], s[i + 14]));
    assert(fits_mark(shape[15], s[i + 15]));
    assert(fits_mark(shape[16], s[i + 16]));
    assert(fits_mark(shape[17], s[i + 17]));
    assert(fits_mark(shape[18], s[i + 18]));
    assert(fits_mark(shape[19], s[i + 19]));
    assert(fits_mark(shape[20], s[i + 20]));
    assert(fits_mark(shape[21], s[i + 21]));
    assert(fits_mark(shape[22], s[i + 22]));
    assert(fits_mark(shape[23], s[i + 23]));
    assert(fits_mark(shape[24], s[i + 24]));
    assert(fits_mark(shape[25], s[i + 25]));
    assert forall|k: int| 0 <= k < 26 implies fits_mark(#[trigger] shape[k], s[i + k]) by {
        assert(k == 0 || k == 1 || k == 2 || k == 3 || k == 4 || k == 5 || k == 6 || k == 7 ||
            k == 8 || k == 9 || k == 10 || k == 11 || k == 12 || k == 13 || k == 14 || k == 15 ||
            k == 16 || k == 17 || k == 18 || k == 19 || k == 20 || k == 21 || k == 22 ||
            k == 23 || k == 24 || k == 25);
    }
}

/// A timestamp of HealthApp is found wherever it is a word of its own.
#[verifier::rlimit(40)]
pub proof fn lemma_health_is_found(s: Seq<char>, i: int)
    requires
        0 <= i,
        i + 21 <= s.len(),
        digits_at(s, i, i + 8),
        s[i + 8] == '-',
        digits_at(s, i + 9, i + 11),
        s[i + 11] == ':',
        digits_at(s, i + 12, i + 14),
        s[i + 14] == ':',
        digits_at(s, i + 15, i + 17),
        s[i + 17] == ':',
        digits_at(s, i + 18, i + 21),
        boundary(s, i),
        boundary(s, i + 21),
    ensures
        health_here(s, i),
{
    reveal_strlit("dddddddd-dd:dd:dd:ddd");
    let shape = "dddddddd-dd:dd:dd:ddd"@;
    assert(fits_mark(shape[0], s[i + 0]));
    assert(fits_mark(shape[1], s[i + 1]));
    assert(fits_mark(shape[2], s[i + 2]));
    assert(fits_mark(shape[3], s[i + 3]));
    assert(fits_mark(shape[4], s[i + 4]));
    assert(fits_mark(shape[5], s[i + 5]));
    assert(fits_mark(shape[6], s[i + 6]));
    assert(fits_mark(shape[7], s[i + 7]));
    assert(fits_mark(shape[8], s[i + 8]));
    assert(fits_mark(shape[9], s[i + 9]));
    assert(fits_mark(shape[10], s[i + 10]));
    assert(fits_mark(shape[11], s[i + 11]));
    assert(fits_mark(shape[12], s[i + 12]));
    assert(fits_mark(shape[13], s[i + 13]));
    assert(fits_mark(shape[14], s[i + 14]));
    assert(fits_mark(shape[15], s[i + 15]));
    assert(fits_mark(shape[16], s[i + 16]));
    assert(fits_mark(shape[17], s[i + 17]));
    assert(fits_mark(shape[18], s[i + 18]));
    assert(fits_mark(shape[19], s[i + 19]));
    assert(fits_mark(shape[20], s[i + 20]));
    assert forall|k: int| 0 <= k < 21 implies fits_mark(#[trigger] shape[k], s[i + k]) by {
        assert(k == 0 || k == 1 || k == 2 || k == 3 || k == 4 || k == 5 || k == 6 || k == 7 ||
            k == 8 || k == 9 || k == 10 || k == 11 || k == 12 || k == 13 || k == 14 || k == 15 ||
            k == 16 || k == 17 || k == 18 || k == 19 || k == 20);
    }
}

/// A timestamp of Proxifier is found wherever it stands.
pub proof fn lemma_proxifier_is_found(s: Seq<char>, i: int)
    requires
        0 <= i,
        i + 16 <= s.len(),
        s[i] == '[',
        digits_at(s, i + 1, i + 3),
        s[i + 3] == '.',
        digits_at(s, i + 4, i + 6),
        s[i + 6] == ' ',
        digits_at(s, i + 7, i + 9),
        s[i + 9] == ':',
        digits_at(s, i + 10, i + 12),
        s[i + 12] == ':',
        digits_at(s, i + 13, i + 15),
        s[i + 15] == ']',
    ensures
        proxifier_here(s, i),
{
    reveal_strlit("[dd.dd dd:dd:dd]");
    let shape = "[dd.dd dd:dd:dd]"@;
    assert(fits_mark(shape[0], s[i + 0]));
    assert(fits_mark(shape[1], s[i + 1]));
    assert(fits_mark(shape[2], s[i + 2]));
    assert(fits_mark(shape[3], s[i + 3]));
    assert(fits_mark(shape[4], s[i + 4]));
    assert(fits_mark(shape[5], s[i + 5]));
    assert(fits_mark(shape[6], s[i + 6]));
    assert(fits_mark(shape[7], s[i + 7]));
    assert(fits_mark(shape[8], s[i + 8]));
    assert(fits_mark(shape[9], s[i + 9]));
    assert(fits_mark(shape[10], s[i + 10]));
    assert(fits_mark(shape[11], s[i + 11]));
    assert(fits_mark(shape[12], s[i + 12]));
    assert(fits_mark(shape[13], s[i + 13]));
    assert(fits_mark(shape[14], s[i + 14]));
    assert(fits_mark(shape[15], s[i + 15]));
    assert forall|k: int| 0 <= k < 16 implies fits_mark(#[trigger] shape[k], s[i + k]) by {
        assert(k == 0 || k == 1 || k == 2 || k == 3 || k == 4 || k == 5 || k == 6 || k == 7 ||
            k == 8 || k == 9 || k == 10 || k == 11 || k == 12 || k == 13 || k == 14 || k == 15);
    }
}

/// A timestamp of Android is found wherever it is a word of its own.
pub proof fn lemma_android_is_found(s: Seq<char>, i: int)
    requires
        0 <= i,
        i + 18 <= s.len(),
        digits_at(s, i, i + 2),
        s[i + 2] == '-',
        digits_at(s, i + 3, i + 5),
        s[i + 5] == ' ',
        digits_at(s, i + 6, i + 8),
        s[i + 8] == ':',
        digits_at(s, i + 9, i + 11),
        s[i + 11] == ':',
        digits_at(s, i + 12, i + 14),
        s[i + 14] == '.',
        digits_at(s, i + 15, i + 18),
        boundary(s, i),
        boundary(s, i + 18),
    ensures
        android_here(s, i),
{
    reveal_strlit("dd-dd dd:dd:dd.ddd");
    let shape = "dd-dd dd:dd:dd.ddd"@;
    assert(fits_mark(shape[0], s[i + 0]));
    assert(fits_mark(shape[1], s[i + 1]));
    assert(fits_mark(shape[2], s[i + 2]));
    assert(fits_mark(shape[3], s[i + 3]));
    assert(fits_mark(shape[4], s[i + 4]));
    assert(fits_mark(shape[5], s[i + 5]));
    assert(fits_mark(shape[6], s[i + 6]));
    assert(fits_mark(shape[7], s[i + 7]));
    assert(fits_mark(shape[8], s[i + 8]));
    assert(fits_mark(shape[9], s[i + 9]));
    assert(fits_mark(shape[10], s[i + 10]));
    assert(fits_mark(shape[11], s[i + 11]));
    assert(fits_mark(shape[12], s[i + 12]));
    assert(fits_mark(shape[13], s[i + 13]));
    assert(fits_mark(shape[14], s[i + 14]));
    assert(fits_mark(shape[15], s[i + 15]));
    assert(fits_mark(shape[16], s[i + 16]));
    assert(fits_mark(shape[17], s[i + 17]));
    assert forall|k: int| 0 <= k < 18 implies fits_mark(#[trigger] shape[k], s[i + k]) by {
        assert(k == 0 || k == 1 || k == 2 || k == 3 || k == 4 || k == 5 || k == 6 || k == 7 ||
            k == 8 || k == 9 || k == 10 || k == 11 || k == 12 || k == 13 || k == 14 || k == 15 ||
            k == 16 || k == 17);
    }
}

/// A timestamp of Apache in brackets, with a day of two digits or of one behind a
/// space, is found wherever it stands.
pub proof fn lemma_ctf_is_found(s: Seq<char>, i: int)
    requires
        0 <= i,
        i + 26 <= s.len(),
        fits(s, i, "[www www "@),
        digits_at(s, i + 9, i + 11) || s[i + 9] == ' ' && digits_at(s, i + 10, i + 11),
        fits(s, i + 11, " dd:dd:dd dddd]"@),
    ensures
        ctf_here(s, i),
{
    reveal_strlit(" dd:dd:dd dddd]");
    assert(fits_mark(" dd:dd:dd dddd]"@[0], s[i + 11 + 0]));
    assert(s[i + 11] == ' ');
    lemma_days_may_be_padded(s, i + 9);
}

/// A timestamp of syslog is found at the start of a line, where the line or a word
/// ends with it.
pub proof fn lemma_syslog_is_found(s: Seq<char>)
    requires
        15 <= s.len(),
        fits(s, 0, "aaa "@),
        digits_at(s, 4, 6) || s[4] == ' ' && digits_at(s, 5, 6),
        fits(s, 6, " dd:dd:dd"@),
        s.len() == 15 || white_space(s[15]),
    ensures
        syslog_here(s, 0),
{
    reveal_strlit(" dd:dd:dd");
    assert(fits_mark(" dd:dd:dd"@[0], s[6int + 0]));
    assert(s[6] == ' ');
    lemma_days_may_be_padded(s, 4);
}

/// A word begins or ends between a character that is a letter, a digit or an
/// underscore and one that is none, or the end of the line.
pub proof fn lemma_words_have_ends(s: Seq<char>, i: int)
    requires
        0 <= i <= s.len(),
        forall|k: int| 0 <= k < s.len() ==> (#[trigger] s[k]) as int <= 127,
    ensures
        boundary(s, i) <==> (i > 0 && is_word_letter(s[i - 1])) != (i < s.len() && is_word_letter(
            s[i],
        )),
{
}

/// A letter of the alphabet, a digit or an underscore.
pub open spec fn is_word_letter(c: char) -> bool {
    'a' <= c <= 'z' || 'A' <= c <= 'Z' || '0' <= c <= '9' || c == '_'
}

/// The day of Apache's and of syslog's timestamps has one or two digits, and may
/// have a space in front.
pub proof fn lemma_days_may_be_padded(s: Seq<char>, p: int)
    requires
        0 <= p,
        p + 2 < s.len(),
        (s[p + 2] as int) < 128,
        !ascii_digit(s[p + 2]),
    ensures
        digits_at(s, p, p + 2) ==> day_start(s, p) == p && day_end(s, p) == p + 2,
        s[p] == ' ' && digits_at(s, p + 1, p + 2) ==> day_start(s, p) == p + 1 && day_end(s, p)
            == p + 2,
{
    reveal_with_fuel(digit_run, 3);
}

// ---------------------------------------------------------------------------
// Whole timestamps
// ---------------------------------------------------------------------------

/// `yyyy-mm-dd hh:mm:ss`: the year, the month, the day and the time of day, in
/// this order. With a zone the moment is exact, and as many seconds earlier as the
/// zone is ahead of UTC.
#[verifier::rlimit(40)]
pub proof fn lemma_iso_parts(s: Seq<char>, i: int)
    requires
        digits_at(s, i, i + 4),
        digits_at(s, i + 5, i + 7),
        digits_at(s, i + 8, i + 10),
        digits_at(s, i + 11, i + 13),
        digits_at(s, i + 14, i + 16),
        digits_at(s, i + 17, i + 19),
    ensures
        ({
            let t = seconds_at(
                four(s, i),
                two(s, i + 5),
                two(s, i + 8),
                two(s, i + 11),
                two(s, i + 14),
                two(s, i + 17),
            );
            let n = fraction_nanos(s, i + 20, fraction_len(s, i + 19));
            let q = fraction_end(s, i + 19);
            let dated = on_calendar(
                four(s, i),
                two(s, i + 5),
                two(s, i + 8),
                two(s, i + 11),
                two(s, i + 14),
                two(s, i + 17),
            );
            &&& !dated ==> iso_reading(s, i) is None
            &&& dated && zone_len(s, q) == 0 ==> iso_reading(s, i) is Some && iso_reading(
                s,
                i,
            )->0.moment == (Moment::Zoneless { secs: t as i64, nanos: n as u32 }) && iso_reading(
                s,
                i,
            )->0.end == q
            &&& dated && zone_at(s, q) is Some ==> iso_reading(s, i) is Some && iso_reading(
                s,
                i,
            )->0.moment == (Moment::Exact {
                secs: (t - zone_at(s, q)->0.offset_of()) as i64,
                nanos: n as u32,
            }) && iso_reading(s, i)->0.end == q + zone_len(s, q)
            &&& zone_len(s, q) > 0 && zone_at(s, q) is None ==> iso_reading(s, i) is None
            &&& iso_reading(s, i) is Some ==> iso_reading(s, i)->0.start == i && iso_reading(
                s,
                i,
            )->0.format == DetectedFormat::Iso
        }),
        iso_reading(s, i) matches Some(r) ==> (r.aux matches Aux::Iso { sep, frac, mark, tz } && {
            &&& sep == s[i + 10]
            &&& frac == fraction_len(s, i + 19) as u8
            &&& fraction_len(s, i + 19) > 0 ==> mark == s[i + 19]
            &&& tz == zone_at(s, fraction_end(s, i + 19))
        }),
{
    lemma_numbers(s, i);
    lemma_numbers(s, i + 5);
    lemma_numbers(s, i + 8);
    lemma_numbers(s, i + 11);
    lemma_numbers(s, i + 14);
    lemma_numbers(s, i + 17);
}

/// `[www mmm dd hh:mm:ss yyyy]`, with a day that ends at `e`: the name of the
/// month, the day, the time of day and the year.
#[verifier::rlimit(40)]
pub proof fn lemma_ctf_parts(s: Seq<char>, i: int)
    requires
        0 <= i,
        digits_at(s, day_end(s, i + 9) + 1, day_end(s, i + 9) + 3),
        digits_at(s, day_end(s, i + 9) + 4, day_end(s, i + 9) + 6),
        digits_at(s, day_end(s, i + 9) + 7, day_end(s, i + 9) + 9),
        digits_at(s, day_end(s, i + 9) + 10, day_end(s, i + 9) + 14),
        number(s, day_start(s, i + 9), day_end(s, i + 9)) is Some,
        month_of(s.subrange(i + 5, i + 8)) is Some,
    ensures
        ({
            let e = day_end(s, i + 9);
            let m = month_of(s.subrange(i + 5, i + 8))->0;
            let d = number(s, day_start(s, i + 9), e)->0;
            let r = ctf_reading(s, i);
            if on_calendar(
                four(s, e + 10),
                m,
                d,
                two(s, e + 1),
                two(s, e + 4),
                two(s, e + 7),
            ) {
                r is Some && r->0.start == i && r->0.end == e + 15 && r->0.moment
                    == (Moment::Zoneless {
                    secs: seconds_at(
                        four(s, e + 10),
                        m,
                        d,
                        two(s, e + 1),
                        two(s, e + 4),
                        two(s, e + 7),
                    ) as i64,
                    nanos: 0,
                })
            } else {
                r is None
            }
        }),
{
    let e = day_end(s, i + 9);
    lemma_numbers(s, e + 1);
    lemma_numbers(s, e + 4);
    lemma_numbers(s, e + 7);
    lemma_numbers(s, e + 10);
}

/// `dd/mmm/yyyy:hh:mm:ss +hhmm`: the day, the name of the month, the year, the
/// time of day and the offset, which is taken off.
#[verifier::rlimit(40)]
pub proof fn lemma_clf_parts(s: Seq<char>, i: int)
    requires
        digits_at(s, i, i + 2),
        digits_at(s, i + 7, i + 11),
        digits_at(s, i + 12, i + 14),
        digits_at(s, i + 15, i + 17),
        digits_at(s, i + 18, i + 20),
        digits_at(s, i + 22, i + 26),
        month_of(s.subrange(i + 3, i + 6)) is Some,
    ensures
        ({
            let m = month_of(s.subrange(i + 3, i + 6))->0;
            let r = clf_reading(s, i);
            let east = two(s, i + 22) * 3600 + two(s, i + 24) * 60;
            if on_calendar(
                four(s, i + 7),
                m,
                two(s, i),
                two(s, i + 12),
                two(s, i + 15),
                two(s, i + 18),
            ) && two(s, i + 22) <= 23 && two(s, i + 24) <= 59 {
                r is Some && r->0.start == i && r->0.end == i + 26 && r->0.moment
                    == (Moment::Exact {
                    secs: (seconds_at(
                        four(s, i + 7),
                        m,
                        two(s, i),
                        two(s, i + 12),
                        two(s, i + 15),
                        two(s, i + 18),
                    ) - (if s[i + 21] == '-' {
                        -east
                    } else {
                        east
                    })) as i64,
                    nanos: 0,
                })
            } else {
                r is None
            }
        }),
{
    lemma_numbers(s, i);
    lemma_numbers(s, i + 7);
    lemma_numbers(s, i + 12);
    lemma_numbers(s, i + 15);
    lemma_numbers(s, i + 18);
    lemma_numbers(s, i + 22);
    lemma_numbers(s, i + 24);
}

/// A number that stands alone between spaces, tabs and the ends of the line is an
/// epoch when it has nine or ten digits and is a second from 100000000 to
/// 2145916800, or eleven to thirteen digits and is a millisecond from 1000000000000
/// to 2145916800000.
pub proof fn lemma_epochs_are_plausible(s: Seq<char>, i: int, j: int)
    requires
        0 <= i < j <= s.len(),
        digits_at(s, i, j),
        i == 0 || s[i - 1] == ' ' || s[i - 1] == '\t',
        j == s.len() || s[j] == ' ' || s[j] == '\t',
    ensures
        ({
            let v = digits_value(s.subrange(i, j));
            let r = epoch_reading(s, i);
            &&& epoch_here(s, i) <==> {
                ||| 9 <= j - i <= 10 && 100_000_000 <= v <= 2_145_916_800
                ||| 11 <= j - i <= 13 && 1_000_000_000_000 <= v <= 2_145_916_800_000
            }
            &&& r is Some && r->0.start == i && r->0.end == j
            &&& 9 <= j - i <= 10 ==> r->0.moment == (Moment::Exact { secs: v as i64, nanos: 0 })
            &&& 11 <= j - i <= 13 ==> r->0.moment == (Moment::Exact {
                secs: (v / 1000) as i64,
                nanos: ((v % 1000) * 1_000_000) as u32,
            })
        }),
{
    lemma_digits_run_on(s, i, j);
}

proof fn lemma_digits_run_on(s: Seq<char>, i: int, j: int)
    requires
        0 <= i <= j <= s.len(),
        digits_at(s, i, j),
        j == s.len() || s[j] == ' ' || s[j] == '\t',
    ensures
        digits_end(s, i) == j,
    decreases j - i,
{
    if i < j {
        lemma_digits_run_on(s, i + 1, j);
    }
}

/// Digits that touch anything but a space or a tab are no epoch.
pub proof fn lemma_epochs_stand_alone(s: Seq<char>, i: int)
    requires
        0 < i <= s.len(),
        epoch_here(s, i),
    ensures
        s[i - 1] == ' ' || s[i - 1] == '\t',
        digits_end(s, i) < s.len() ==> s[digits_end(s, i)] == ' ' || s[digits_end(s, i)] == '\t',
{
}

/// `mmm dd hh:mm:ss` at the start of the line, with a day that ends at `e`: the
/// name of the month, the day and the time of day of some year.
#[verifier::rlimit(40)]
pub proof fn lemma_syslog_parts(s: Seq<char>)
    requires
        digits_at(s, day_end(s, 4) + 1, day_end(s, 4) + 3),
        digits_at(s, day_end(s, 4) + 4, day_end(s, 4) + 6),
        digits_at(s, day_end(s, 4) + 7, day_end(s, 4) + 9),
        number(s, day_start(s, 4), day_end(s, 4)) is Some,
        month_of(s.subrange(0, 3)) is Some,
    ensures
        ({
            let e = day_end(s, 4);
            let m = month_of(s.subrange(0, 3))->0;
            let d = number(s, day_start(s, 4), e)->0;
            let r = syslog_reading(s, 0);
            if on_calendar(2000, m, d, two(s, e + 1), two(s, e + 4), two(s, e + 7)) {
                r is Some && r->0.start == 0 && r->0.end == e + 9 && r->0.moment
                    == (Moment::Yearless {
                    month: m as u32,
                    day: d as u32,
                    tod: (two(s, e + 1) * 3600 + two(s, e + 4) * 60 + two(s, e + 7)) as u32,
                    nanos: 0,
                })
            } else {
                r is None
            }
        }),
        forall|i: int| i > 0 ==> !#[trigger] syslog_here(s, i),
{
    let e = day_end(s, 4);
    lemma_numbers(s, e + 1);
    lemma_numbers(s, e + 4);
    lemma_numbers(s, e + 7);
}

/// `yyyymmdd-hh:mm:ss:mmm`: the date, the time of day and the milliseconds.
#[verifier::rlimit(40)]
pub proof fn lemma_health_parts(s: Seq<char>, i: int)
    requires
        digits_at(s, i, i + 8),
        digits_at(s, i + 9, i + 11),
        digits_at(s, i + 12, i + 14),
        digits_at(s, i + 15, i + 17),
        digits_at(s, i + 18, i + 21),
    ensures
        ({
            let r = health_reading(s, i);
            if on_calendar(
                four(s, i),
                two(s, i + 4),
                two(s, i + 6),
                two(s, i + 9),
                two(s, i + 12),
                two(s, i + 15),
            ) {
                r is Some && r->0.start == i && r->0.end == i + 21 && r->0.moment
                    == (Moment::Zoneless {
                    secs: seconds_at(
                        four(s, i),
                        two(s, i + 4),
                        two(s, i + 6),
                        two(s, i + 9),
                        two(s, i + 12),
                        two(s, i + 15),
                    ) as i64,
                    nanos: (three(s, i + 18) * 1_000_000) as u32,
                })
            } else {
                r is None
            }
        }),
{
    lemma_numbers(s, i);
    lemma_numbers(s, i + 4);
    lemma_numbers(s, i + 6);
    lemma_numbers(s, i + 9);
    lemma_numbers(s, i + 12);
    lemma_numbers(s, i + 15);
    lemma_numbers(s, i + 18);
}

/// `[mm.dd hh:mm:ss]`: the month, the day and the time of day of some year.
#[verifier::rlimit(40)]
pub proof fn lemma_proxifier_parts(s: Seq<char>, i: int)
    requires
        digits_at(s, i + 1, i + 3),
        digits_at(s, i + 4, i + 6),
        digits_at(s, i + 7, i + 9),
        digits_at(s, i + 10, i + 12),
        digits_at(s, i + 13, i + 15),
    ensures
        ({
            let r = proxifier_reading(s, i);
            if on_calendar(
                2000,
                two(s, i + 1),
                two(s, i + 4),
                two(s, i + 7),
                two(s, i + 10),
                two(s, i + 13),
            ) {
                r is Some && r->0.start == i && r->0.end == i + 16 && r->0.moment
                    == (Moment::Yearless {
                    month: two(s, i + 1) as u32,
                    day: two(s, i + 4) as u32,
                    tod: (two(s, i + 7) * 3600 + two(s, i + 10) * 60 + two(s, i + 13)) as u32,
                    nanos: 0,
                })
            } else {
                r is None
            }
        }),
{
    lemma_numbers(s, i + 1);
    lemma_numbers(s, i + 4);
    lemma_numbers(s, i + 7);
    lemma_numbers(s, i + 10);
    lemma_numbers(s, i + 13);
}

/// `mm-dd hh:mm:ss.mmm`: the month, the day, the time of day and the milliseconds
/// of some year.
#[verifier::rlimit(40)]
pub proof fn lemma_android_parts(s: Seq<char>, i: int)
    requires
        digits_at(s, i, i + 2),
        digits_at(s, i + 3, i + 5),
        digits_at(s, i + 6, i + 8),
        digits_at(s, i + 9, i + 11),
        digits_at(s, i + 12, i + 14),
        digits_at(s, i + 15, i + 18),
    ensures
        ({
            let r = android_reading(s, i);
            if on_calendar(
                2000,
                two(s, i),
                two(s, i + 3),
                two(s, i + 6),
                two(s, i + 9),
                two(s, i + 12),
            ) {
                r is Some && r->0.start == i && r->0.end == i + 18 && r->0.moment
                    == (Moment::Yearless {
                    month: two(s, i) as u32,
                    day: two(s, i + 3) as u32,
                    tod: (two(s, i + 6) * 3600 + two(s, i + 9) * 60 + two(s, i + 12)) as u32,
                    nanos: (three(s, i + 15) * 1_000_000) as u32,
                })
            } else {
                r is None
            }
        }),
{
    lemma_numbers(s, i);
    lemma_numbers(s, i + 3);
    lemma_numbers(s, i + 6);
    lemma_numbers(s, i + 9);
    lemma_numbers(s, i + 12);
    lemma_numbers(s, i + 15);
}

} // verus!
