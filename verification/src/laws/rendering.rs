//! Timestamps that are written: every digit and every separator in its place.

use vstd::prelude::*;

use crate::clock::{civil, subsec, valid_clock, valid_date, whole_seconds, Civil};
use crate::formats::{Aux, DetectedFormat, Zone, ZoneStyle};
use crate::laws::naming::{
    lemma_months_are_written_by_number, lemma_weekdays_are_written_by_number, triple, week_text,
    year_text,
};
use crate::render::{
    android_text, clf_text, clock_text, ctf_text, fraction_digits, health_text, iso_date_time,
    iso_text, offset_text, proxifier_text, rendered, syslog_text, zone_text,
};
use crate::text::{digit_char, digits_value, lemma_padded_reads_back, padded};

verus! {

broadcast use Zone::lemma_of;

/// The decimal digit of a number from 0 to 9.
pub open spec fn one(n: int) -> Seq<char> {
    seq![(48 + n) as char]
}

/// A number from 0 to 99, by its two digits.
pub open spec fn two(n: int) -> Seq<char> {
    one(n / 10) + one(n % 10)
}

/// A number from 0 to 999, by its three digits.
pub open spec fn three(n: int) -> Seq<char> {
    one(n / 100) + two(n % 100)
}

/// A number from 0 to 9999, by its four digits.
pub open spec fn four(n: int) -> Seq<char> {
    two(n / 100) + two(n % 100)
}

/// A number from 0 to 9999, by as many digits as it has.
pub open spec fn plain(n: int) -> Seq<char> {
    if n <= 9 {
        one(n)
    } else if n <= 99 {
        two(n)
    } else if n <= 999 {
        three(n)
    } else {
        four(n)
    }
}

#[verifier::rlimit(40)]
proof fn lemma_padded(n: int)
    requires
        0 <= n,
    ensures
        n <= 9 ==> padded(n, 1) == one(n),
        n <= 99 ==> padded(n, 2) == two(n),
        n <= 999 ==> padded(n, 3) == three(n),
        n <= 9999 ==> padded(n, 4) == four(n),
        n <= 9999 ==> padded(n, 1) == plain(n),
{
    reveal_with_fuel(padded, 5);
    assert(n <= 99 ==> padded(n, 2) =~= two(n));
    assert(n <= 999 ==> padded(n, 3) =~= three(n));
    assert(n <= 9999 ==> padded(n, 4) =~= four(n));
    assert(n <= 9999 ==> padded(n, 1) =~= plain(n));
}

/// A date and a time of day of a year of at most four digits.
pub open spec fn is_dated(c: Civil) -> bool {
    &&& 0 <= c.year <= 9999
    &&& valid_date(c.year as int, c.month as int, c.day as int)
    &&& valid_clock(c.hour as int, c.minute as int, c.second as int)
    &&& c.weekday <= 6
}

proof fn lemma_parts(c: Civil)
    requires
        is_dated(c),
    ensures
        padded(c.year as int, 1) == plain(c.year as int),
        padded(c.year as int, 4) == four(c.year as int),
        padded(c.month as int, 2) == two(c.month as int),
        padded(c.day as int, 2) == two(c.day as int),
        c.day < 10 ==> padded(c.day as int, 1) == one(c.day as int),
        padded(c.hour as int, 2) == two(c.hour as int),
        padded(c.minute as int, 2) == two(c.minute as int),
        padded(c.second as int, 2) == two(c.second as int),
{
    lemma_padded(c.year as int);
    lemma_padded(c.month as int);
    lemma_padded(c.day as int);
    lemma_padded(c.hour as int);
    lemma_padded(c.minute as int);
    lemma_padded(c.second as int);
}

/// `hh:mm:ss`
pub open spec fn time_of(c: Civil) -> Seq<char> {
    two(c.hour as int) + seq![':'] + two(c.minute as int) + seq![':'] + two(c.second as int)
}

/// The time of day is the hour, the minute and the second, of two digits each.
pub proof fn lemma_clock_is_written(c: Civil)
    requires
        is_dated(c),
    ensures
        clock_text(c) == time_of(c),
{
    lemma_parts(c);
    assert(clock_text(c) =~= time_of(c));
}

/// An ISO timestamp is the year, the month and the day between hyphens, the
/// separator, and the time of day.
pub proof fn lemma_iso_is_written(c: Civil, sep: char)
    requires
        is_dated(c),
    ensures
        iso_date_time(c, sep) == plain(c.year as int) + seq!['-'] + two(c.month as int) + seq!['-']
            + two(c.day as int) + seq![sep] + time_of(c),
{
    lemma_parts(c);
    lemma_clock_is_written(c);
    assert(iso_date_time(c, sep) =~= plain(c.year as int) + seq!['-'] + two(c.month as int)
        + seq!['-'] + two(c.day as int) + seq![sep] + time_of(c));
}

/// Its fraction has the digits that were asked for: each of the first six is that
/// of the nanoseconds, and the others are zeros.
#[verifier::rlimit(40)]
pub proof fn lemma_fraction_is_written(c: Civil, nanos: int, sep: char, frac: int, mark: char)
    requires
        0 <= nanos < 1_000_000_000,
        0 <= frac,
    ensures
        iso_text(c, nanos, sep, 0, mark) == iso_date_time(c, sep),
        frac > 0 ==> iso_text(c, nanos, sep, frac, mark) == iso_date_time(c, sep) + seq![mark]
            + fraction_digits(nanos, frac),
        fraction_digits(nanos, frac).len() == frac,
        frac > 0 ==> fraction_digits(nanos, frac)[0] == one(nanos / 100_000_000)[0],
        frac > 1 ==> fraction_digits(nanos, frac)[1] == one(nanos / 10_000_000 % 10)[0],
        frac > 2 ==> fraction_digits(nanos, frac)[2] == one(nanos / 1_000_000 % 10)[0],
        frac > 3 ==> fraction_digits(nanos, frac)[3] == one(nanos / 100_000 % 10)[0],
        frac > 4 ==> fraction_digits(nanos, frac)[4] == one(nanos / 10_000 % 10)[0],
        frac > 5 ==> fraction_digits(nanos, frac)[5] == one(nanos / 1_000 % 10)[0],
        forall|k: int| 6 <= k < frac ==> #[trigger] fraction_digits(nanos, frac)[k] == '0',
{
    if frac > 0 {
        assert(iso_text(c, nanos, sep, frac, mark) =~= iso_date_time(c, sep) + seq![mark]
            + fraction_digits(nanos, frac));
    }
    lemma_six_digits(nanos / 1000);
}

#[verifier::rlimit(40)]
proof fn lemma_six_digits(u: int)
    requires
        0 <= u < 1_000_000,
    ensures
        ({
            let p = padded(u, 6);
            &&& p.len() == 6
            &&& p[0] == one(u / 100_000)[0]
            &&& p[1] == one(u / 10_000 % 10)[0]
            &&& p[2] == one(u / 1000 % 10)[0]
            &&& p[3] == one(u / 100 % 10)[0]
            &&& p[4] == one(u / 10 % 10)[0]
            &&& p[5] == one(u % 10)[0]
        }),
{
    let a = u / 10;
    let b = a / 10;
    assert(b == u / 100);
    let head = padded(b, 4);
    lemma_padded(b);
    assert(head == four(b));
    assert(padded(a, 5) == head.push(digit_char(a % 10)));
    assert(padded(u, 6) == padded(a, 5).push(digit_char(u % 10)));
    assert(b / 100 / 10 == u / 100_000);
    assert(b / 100 % 10 == u / 10_000 % 10);
    assert(b % 100 / 10 == u / 1000 % 10);
    assert(b % 100 % 10 == u / 100 % 10);
}

/// Apache's timestamp in brackets is the name of the weekday, that of the month,
/// the day, the time of day and the year.
#[verifier::rlimit(40)]
pub proof fn lemma_ctf_is_written(c: Civil)
    requires
        is_dated(c),
    ensures
        ctf_text(c) == seq!['['] + triple(week_text(), c.weekday as int) + seq![' '] + triple(
            year_text(),
            c.month - 1,
        ) + seq![' '] + two(c.day as int) + seq![' '] + time_of(c) + seq![' '] + plain(
            c.year as int,
        ) + seq![']'],
{
    lemma_parts(c);
    lemma_clock_is_written(c);
    lemma_weekdays_are_written_by_number(c.weekday as int);
    lemma_months_are_written_by_number(c.month as int);
    assert(ctf_text(c) =~= seq!['['] + triple(week_text(), c.weekday as int) + seq![' '] + triple(
        year_text(),
        c.month - 1,
    ) + seq![' '] + two(c.day as int) + seq![' '] + time_of(c) + seq![' '] + plain(c.year as int)
        + seq![']']);
}

/// The common log format has the day, the name of the month and the year, of four
/// digits, between slashes, a colon and the time of day.
pub proof fn lemma_clf_is_written(c: Civil)
    requires
        is_dated(c),
    ensures
        clf_text(c) == two(c.day as int) + seq!['/'] + triple(year_text(), c.month - 1)
            + seq!['/'] + four(c.year as int) + seq![':'] + time_of(c) + seq![' '],
{
    lemma_parts(c);
    lemma_clock_is_written(c);
    lemma_months_are_written_by_number(c.month as int);
    assert(clf_text(c) =~= two(c.day as int) + seq!['/'] + triple(year_text(), c.month - 1)
        + seq!['/'] + four(c.year as int) + seq![':'] + time_of(c) + seq![' ']);
}

/// Syslog has the name of the month, the day, with a space for its tens below ten,
/// and the time of day.
pub proof fn lemma_syslog_is_written(c: Civil)
    requires
        is_dated(c),
    ensures
        syslog_text(c) == triple(year_text(), c.month - 1) + seq![' '] + (if c.day < 10 {
            seq![' '] + one(c.day as int)
        } else {
            two(c.day as int)
        }) + seq![' '] + time_of(c),
{
    lemma_parts(c);
    lemma_clock_is_written(c);
    lemma_months_are_written_by_number(c.month as int);
    assert(syslog_text(c) =~= triple(year_text(), c.month - 1) + seq![' '] + (if c.day < 10 {
        seq![' '] + one(c.day as int)
    } else {
        two(c.day as int)
    }) + seq![' '] + time_of(c));
}

/// HealthApp has the date without separators, a hyphen, the time of day and the
/// milliseconds.
pub proof fn lemma_health_is_written(c: Civil, nanos: int)
    requires
        is_dated(c),
        0 <= nanos < 1_000_000_000,
    ensures
        health_text(c, nanos) == plain(c.year as int) + two(c.month as int) + two(c.day as int)
            + seq!['-'] + time_of(c) + seq![':'] + three(nanos / 1_000_000),
{
    lemma_parts(c);
    lemma_padded(nanos / 1_000_000);
    lemma_clock_is_written(c);
    assert(health_text(c, nanos) =~= plain(c.year as int) + two(c.month as int) + two(
        c.day as int,
    ) + seq!['-'] + time_of(c) + seq![':'] + three(nanos / 1_000_000));
}

/// Android has the month, a hyphen, the day, the time of day and the milliseconds.
pub proof fn lemma_android_is_written(c: Civil, nanos: int)
    requires
        is_dated(c),
        0 <= nanos < 1_000_000_000,
    ensures
        android_text(c, nanos) == two(c.month as int) + seq!['-'] + two(c.day as int) + seq![' ']
            + time_of(c) + seq!['.'] + three(nanos / 1_000_000),
{
    lemma_parts(c);
    lemma_padded(nanos / 1_000_000);
    lemma_clock_is_written(c);
    assert(android_text(c, nanos) =~= two(c.month as int) + seq!['-'] + two(c.day as int)
        + seq![' '] + time_of(c) + seq!['.'] + three(nanos / 1_000_000));
}

/// Proxifier has the month, a dot, the day and the time of day in brackets.
pub proof fn lemma_proxifier_is_written(c: Civil)
    requires
        is_dated(c),
    ensures
        proxifier_text(c) == seq!['['] + two(c.month as int) + seq!['.'] + two(c.day as int)
            + seq![' '] + time_of(c) + seq![']'],
{
    lemma_parts(c);
    lemma_clock_is_written(c);
    assert(proxifier_text(c) =~= seq!['['] + two(c.month as int) + seq!['.'] + two(c.day as int)
        + seq![' '] + time_of(c) + seq![']']);
}

/// An offset has a sign, its hours and its minutes; a plus sign to the east, a
/// minus sign to the west, and for UTC itself the one that was read.
#[verifier::rlimit(40)]
pub proof fn lemma_offset_is_written(off: int, minus: bool)
    requires
        -86400 < off < 86400,
    ensures
        off > 0 ==> offset_text(off, minus, true) == seq!['+'] + two(off / 3600) + seq![':'] + two(
            off % 3600 / 60,
        ),
        off < 0 ==> offset_text(off, minus, true) == seq!['-'] + two(-off / 3600) + seq![':']
            + two(-off % 3600 / 60),
        off > 0 ==> offset_text(off, minus, false) == seq!['+'] + two(off / 3600) + two(
            off % 3600 / 60,
        ),
        off < 0 ==> offset_text(off, minus, false) == seq!['-'] + two((-off) / 3600) + two(
            (-off) % 3600 / 60,
        ),
        offset_text(0, minus, true)[0] == (if minus {
            '-'
        } else {
            '+'
        }),
        offset_text(0, minus, false)[0] == offset_text(0, minus, true)[0],
{
    let m = if off < 0 {
        -off
    } else {
        off
    };
    lemma_padded(m / 3600);
    lemma_padded(m % 3600 / 60);
    let hours = two(m / 3600);
    let minutes = two(m % 3600 / 60);
    let sign = if off < 0 || (off == 0 && minus) {
        seq!['-']
    } else {
        seq!['+']
    };
    assert(offset_text(off, minus, true) =~= sign + hours + seq![':'] + minutes);
    assert(offset_text(off, minus, false) =~= sign + hours + minutes);
    lemma_padded(0);
}

/// A zone is written as it was read: `Z`, `z`, or an offset.
pub proof fn lemma_zone_is_written(off: int, minus: bool, colon: bool)
    requires
        -86400 < off < 86400,
    ensures
        zone_text(Zone::of(off, ZoneStyle::UpperZ)) == seq!['Z'],
        zone_text(Zone::of(off, ZoneStyle::LowerZ)) == seq!['z'],
        zone_text(Zone::of(off, ZoneStyle::Digits { minus, colon })) == offset_text(
            off,
            minus,
            colon,
        ),
{
}

/// An epoch is written as the whole seconds or the whole milliseconds since 1970.
pub proof fn lemma_epoch_is_written(aux: Aux, t: int, off: int)
    requires
        0 <= t,
    ensures
        digits_value(rendered(DetectedFormat::Epoch, aux, false, t, off)) == t / 1_000_000_000,
        digits_value(rendered(DetectedFormat::Epoch, aux, true, t, off)) == t / 1_000_000,
{
    lemma_padded_reads_back(t / 1_000_000_000, 1);
    lemma_padded_reads_back(t / 1_000_000, 1);
}

/// An epoch before 1970 has a minus sign, and is rounded down like the others.
pub proof fn lemma_negative_epoch_is_written(aux: Aux, t: int, off: int)
    requires
        t < 0,
    ensures
        ({
            let secs = rendered(DetectedFormat::Epoch, aux, false, t, off);
            let millis = rendered(DetectedFormat::Epoch, aux, true, t, off);
            &&& secs[0] == '-' && digits_value(secs.skip(1)) == -(t / 1_000_000_000)
            &&& millis[0] == '-' && digits_value(millis.skip(1)) == -(t / 1_000_000)
        }),
{
    let a = padded(-(t / 1_000_000_000), 0);
    let b = padded(-(t / 1_000_000), 0);
    lemma_padded_reads_back(-(t / 1_000_000_000), 0);
    lemma_padded_reads_back(-(t / 1_000_000), 0);
    assert((seq!['-'] + a).skip(1) =~= a);
    assert((seq!['-'] + b).skip(1) =~= b);
}

/// A format without a zone shows the local clock: what it writes `off` seconds
/// east of UTC is what it writes in UTC as many seconds later.
pub proof fn lemma_local_clock_is_written(
    f: DetectedFormat,
    aux: Aux,
    millis: bool,
    t: int,
    off: int,
)
    requires
        f == DetectedFormat::ApacheCtf || f == DetectedFormat::SyslogNoYear || f
            == DetectedFormat::HealthApp || f == DetectedFormat::Android || f
            == DetectedFormat::Proxifier || (f == DetectedFormat::Iso && aux matches Aux::Iso {
            tz: None,
            ..
        }),
    ensures
        rendered(f, aux, millis, t, off) == rendered(f, aux, millis, t + off * 1_000_000_000, 0),
{
    let u = t + off * 1_000_000_000;
    assert(whole_seconds(u) == whole_seconds(t) + off);
    assert(subsec(u) == subsec(t));
}

/// A format with a zone of its own does not depend on the local clock; and an ISO
/// timestamp with a zone is one without, on the clock of the zone, and the zone.
pub proof fn lemma_own_zone_is_written(
    sep: char,
    frac: u8,
    mark: char,
    z: Zone,
    millis: bool,
    t: int,
    off: int,
    other: int,
)
    ensures
        rendered(DetectedFormat::Iso, Aux::Iso { sep, frac, mark, tz: Some(z) }, millis, t, off)
            == rendered(
            DetectedFormat::Iso,
            Aux::Iso { sep, frac, mark, tz: None },
            millis,
            t,
            z.offset_of(),
        ) + zone_text(z),
        rendered(DetectedFormat::ApacheClf, Aux::Clf { tz: z }, millis, t, off) == clf_text(
            civil(whole_seconds(t) + z.offset_of()),
        ) + zone_text(z),
        rendered(DetectedFormat::Epoch, Aux::Unit, millis, t, off) == rendered(
            DetectedFormat::Epoch,
            Aux::Unit,
            millis,
            t,
            other,
        ),
{
}

/// Every format writes its own shape of the clock that it shows.
pub proof fn lemma_formats_are_written(
    sep: char,
    frac: u8,
    mark: char,
    millis: bool,
    t: int,
    off: int,
)
    ensures
        ({
            let c = civil(t / 1_000_000_000 + off);
            let nanos = t % 1_000_000_000;
            &&& rendered(
                DetectedFormat::Iso,
                Aux::Iso { sep, frac, mark, tz: None },
                millis,
                t,
                off,
            ) == iso_text(c, nanos, sep, frac as int, mark)
            &&& rendered(DetectedFormat::ApacheCtf, Aux::Unit, millis, t, off) == ctf_text(c)
            &&& rendered(DetectedFormat::SyslogNoYear, Aux::Unit, millis, t, off) == syslog_text(c)
            &&& rendered(DetectedFormat::HealthApp, Aux::Unit, millis, t, off) == health_text(
                c,
                nanos,
            )
            &&& rendered(DetectedFormat::Android, Aux::Unit, millis, t, off) == android_text(
                c,
                nanos,
            )
            &&& rendered(DetectedFormat::Proxifier, Aux::Unit, millis, t, off) == proxifier_text(c)
        }),
{
}

} // verus!
