//! Rendering: an instant in the shape of a timestamp that was found.

use vstd::prelude::*;

use crate::clock::{civil, subsec, valid_offset, whole_seconds, Civil, UtcTime};
use crate::formats::{Aux, DetectedFormat, Zone, ZoneStyle};
use crate::text::{
    chars_of, lemma_padded_reads_back, padded, pow10, push_padded, push_signed, signed_padded,
};

verus! {

broadcast use {vstd::string::group_string_axioms, Zone::lemma_of};

// ---------------------------------------------------------------------------
// What is written
// ---------------------------------------------------------------------------

/// The short English name of a month.
pub open spec fn month_name(m: int) -> Seq<char> {
    if m == 1 {
        "Jan"@
    } else if m == 2 {
        "Feb"@
    } else if m == 3 {
        "Mar"@
    } else if m == 4 {
        "Apr"@
    } else if m == 5 {
        "May"@
    } else if m == 6 {
        "Jun"@
    } else if m == 7 {
        "Jul"@
    } else if m == 8 {
        "Aug"@
    } else if m == 9 {
        "Sep"@
    } else if m == 10 {
        "Oct"@
    } else if m == 11 {
        "Nov"@
    } else {
        "Dec"@
    }
}

/// The short English name of a weekday, from Sunday on.
pub open spec fn weekday_name(w: int) -> Seq<char> {
    if w == 0 {
        "Sun"@
    } else if w == 1 {
        "Mon"@
    } else if w == 2 {
        "Tue"@
    } else if w == 3 {
        "Wed"@
    } else if w == 4 {
        "Thu"@
    } else if w == 5 {
        "Fri"@
    } else {
        "Sat"@
    }
}

/// `hh:mm:ss`
pub open spec fn clock_text(c: Civil) -> Seq<char> {
    ((padded(c.hour as int, 2).push(':') + padded(c.minute as int, 2)).push(':')) + padded(
        c.second as int,
        2,
    )
}

/// The size of an offset, without its sign.
pub open spec fn magnitude(off: int) -> int {
    if off < 0 {
        -off
    } else {
        off
    }
}

/// `+hhmm`, or `+hh:mm` with a colon.
pub open spec fn offset_text(off: int, minus: bool, colon: bool) -> Seq<char> {
    let sign = seq![if off < 0 || (off == 0 && minus) {
        '-'
    } else {
        '+'
    }];
    let hours = sign + padded(magnitude(off) / 3600, 2);
    (if colon {
        hours.push(':')
    } else {
        hours
    }) + padded(magnitude(off) % 3600 / 60, 2)
}

pub open spec fn zone_text(z: Zone) -> Seq<char> {
    match z.style_of() {
        ZoneStyle::UpperZ => seq!['Z'],
        ZoneStyle::LowerZ => seq!['z'],
        ZoneStyle::Digits { minus, colon } => offset_text(z.offset_of(), minus, colon),
    }
}

/// The first `n` digits of a fraction that is known to the microsecond.
pub open spec fn fraction_digits(nanos: int, n: int) -> Seq<char> {
    Seq::new(
        n as nat,
        |k: int|
            if k < 6 {
                padded(nanos / 1000, 6)[k]
            } else {
                '0'
            },
    )
}

/// `yyyy-mm-dd hh:mm:ss` with the separator between the two.
pub open spec fn iso_date_time(c: Civil, sep: char) -> Seq<char> {
    ((signed_padded(c.year as int, 1).push('-') + padded(c.month as int, 2)).push('-') + padded(
        c.day as int,
        2,
    )).push(sep) + clock_text(c)
}

pub open spec fn iso_text(c: Civil, nanos: int, sep: char, frac: int, mark: char) -> Seq<char> {
    if frac > 0 {
        iso_date_time(c, sep).push(mark) + fraction_digits(nanos, frac)
    } else {
        iso_date_time(c, sep)
    }
}

/// `[Thu Jun 09 06:07:04 2005]`
pub open spec fn ctf_text(c: Civil) -> Seq<char> {
    (((((seq!['['] + weekday_name(c.weekday as int)).push(' ') + month_name(c.month as int)).push(
        ' ',
    ) + padded(c.day as int, 2)).push(' ') + clock_text(c)).push(' ') + signed_padded(
        c.year as int,
        1,
    )).push(']')
}

/// `10/Jun/2005:06:07:04 ` in front of the offset
pub open spec fn clf_text(c: Civil) -> Seq<char> {
    ((((padded(c.day as int, 2).push('/') + month_name(c.month as int)).push('/') + signed_padded(
        c.year as int,
        4,
    )).push(':')) + clock_text(c)).push(' ')
}

/// `Dec 10 06:55:46`; a day of one digit has a space in front.
pub open spec fn syslog_text(c: Civil) -> Seq<char> {
    let head = month_name(c.month as int).push(' ');
    (if c.day < 10 {
        head.push(' ') + padded(c.day as int, 1)
    } else {
        head + padded(c.day as int, 2)
    }).push(' ') + clock_text(c)
}

/// `20171223-22:15:29:606`
pub open spec fn health_text(c: Civil, nanos: int) -> Seq<char> {
    (((signed_padded(c.year as int, 1) + padded(c.month as int, 2) + padded(c.day as int, 2)).push(
        '-',
    ) + clock_text(c)).push(':')) + padded(nanos / 1_000_000, 3)
}

/// `12-17 19:31:36.263`
pub open spec fn android_text(c: Civil, nanos: int) -> Seq<char> {
    ((((padded(c.month as int, 2).push('-')) + padded(c.day as int, 2)).push(' ') + clock_text(
        c,
    )).push('.')) + padded(nanos / 1_000_000, 3)
}

/// `[10.30 16:49:06]`
pub open spec fn proxifier_text(c: Civil) -> Seq<char> {
    (((seq!['['] + padded(c.month as int, 2)).push('.') + padded(c.day as int, 2)).push(' ')
        + clock_text(c)).push(']')
}

/// The details that an ISO rendering goes by.
pub open spec fn iso_details(aux: Aux) -> (char, int, char, Option<Zone>) {
    match aux {
        Aux::Iso { sep, frac, mark, tz } => (sep, frac as int, mark, tz),
        _ => ('T', 0, '.', Some(Zone::of(0, ZoneStyle::UpperZ))),
    }
}

/// The zone that a CLF rendering goes by.
pub open spec fn clf_zone(aux: Aux) -> Zone {
    match aux {
        Aux::Clf { tz } => tz,
        _ => Zone::of(0, ZoneStyle::Digits { minus: false, colon: false }),
    }
}

/// The instant `t` in the format, where `off` is the offset from UTC of a
/// format that has none of its own. An epoch is written in milliseconds or in
/// seconds.
pub open spec fn rendered(f: DetectedFormat, aux: Aux, in_millis: bool, t: int, off: int) -> Seq<
    char,
> {
    let secs = whole_seconds(t);
    let nanos = subsec(t);
    let c = civil(secs + off);
    match f {
        DetectedFormat::Iso => {
            let (sep, frac, mark, tz) = iso_details(aux);
            match tz {
                Some(z) => iso_text(civil(secs + z.offset_of()), nanos, sep, frac, mark)
                    + zone_text(z),
                None => iso_text(c, nanos, sep, frac, mark),
            }
        },
        DetectedFormat::ApacheCtf => ctf_text(c),
        DetectedFormat::ApacheClf => {
            let z = clf_zone(aux);
            clf_text(civil(secs + z.offset_of())) + zone_text(z)
        },
        DetectedFormat::Epoch => signed_padded(
            if in_millis {
                t / 1_000_000
            } else {
                secs
            },
            1,
        ),
        DetectedFormat::SyslogNoYear => syslog_text(c),
        DetectedFormat::HealthApp => health_text(c, nanos),
        DetectedFormat::Android => android_text(c, nanos),
        DetectedFormat::Proxifier => proxifier_text(c),
    }
}

// ---------------------------------------------------------------------------
// Writing it
// ---------------------------------------------------------------------------

fn month_label(m: u32) -> (r: &'static str)
    ensures
        r@ == month_name(m as int),
{
    match m {
        1 => "Jan",
        2 => "Feb",
        3 => "Mar",
        4 => "Apr",
        5 => "May",
        6 => "Jun",
        7 => "Jul",
        8 => "Aug",
        9 => "Sep",
        10 => "Oct",
        11 => "Nov",
        _ => "Dec",
    }
}

fn weekday_label(w: u32) -> (r: &'static str)
    ensures
        r@ == weekday_name(w as int),
{
    match w {
        0 => "Sun",
        1 => "Mon",
        2 => "Tue",
        3 => "Wed",
        4 => "Thu",
        5 => "Fri",
        _ => "Sat",
    }
}

fn push_two(out: &mut String, n: u32)
    ensures
        final(out)@ == old(out)@ + padded(n as int, 2),
{
    push_padded(out, n as u64, 2);
}

fn push_year(out: &mut String, year: i32, width: usize)
    requires
        1 <= width,
    ensures
        final(out)@ == old(out)@ + signed_padded(year as int, width as int),
{
    push_signed(out, year as i64, width);
}

fn push_clock(out: &mut String, c: &Civil)
    ensures
        final(out)@ == old(out)@ + clock_text(*c),
{
    push_two(out, c.hour);
    out.push(':');
    push_two(out, c.minute);
    out.push(':');
    push_two(out, c.second);
    assert(out@ =~= old(out)@ + clock_text(*c));
}

fn push_offset(out: &mut String, off: i32, minus: bool, colon: bool)
    requires
        valid_offset(off as int),
    ensures
        final(out)@ == old(out)@ + offset_text(off as int, minus, colon),
{
    let size: i32 = if off < 0 {
        -off
    } else {
        off
    };
    out.push(
        if off < 0 || (off == 0 && minus) {
            '-'
        } else {
            '+'
        },
    );
    push_two(out, (size / 3600) as u32);
    if colon {
        out.push(':');
    }
    push_two(out, (size % 3600 / 60) as u32);
    assert(out@ =~= old(out)@ + offset_text(off as int, minus, colon));
}

fn push_zone(out: &mut String, z: &Zone)
    ensures
        final(out)@ == old(out)@ + zone_text(*z),
{
    match z.style() {
        ZoneStyle::UpperZ => out.push('Z'),
        ZoneStyle::LowerZ => out.push('z'),
        ZoneStyle::Digits { minus, colon } => push_offset(out, z.offset(), minus, colon),
    }
}

/// Appends the first `n` digits of the fraction.
fn push_fraction(out: &mut String, nanos: u32, n: u8)
    requires
        nanos < 1_000_000_000,
    ensures
        final(out)@ == old(out)@ + fraction_digits(nanos as int, n as int),
{
    let mut text = String::new();
    push_padded(&mut text, (nanos / 1000) as u64, 6);
    let digits = chars_of(text.as_str());
    proof {
        assert(pow10(6) == 1_000_000) by {
            reveal_with_fuel(pow10, 7);
        }
        lemma_padded_reads_back(nanos as int / 1000, 6);
        assert(digits@ =~= padded(nanos as int / 1000, 6));
    }
    let ghost all = fraction_digits(nanos as int, n as int);
    let mut k: u8 = 0;
    assert(out@ =~= old(out)@ + all.take(0));
    while k < n
        invariant
            k <= n,
            digits@ == padded(nanos as int / 1000, 6),
            digits@.len() == 6,
            all == fraction_digits(nanos as int, n as int),
            out@ == old(out)@ + all.take(k as int),
        decreases n - k,
    {
        if k < 6 {
            out.push(digits[k as usize]);
        } else {
            out.push('0');
        }
        assert(all.take(k + 1) =~= all.take(k as int).push(all[k as int]));
        k += 1;
    }
    assert(all.take(n as int) =~= all);
}

fn push_iso(out: &mut String, c: &Civil, nanos: u32, sep: char, frac: u8, mark: char)
    requires
        nanos < 1_000_000_000,
    ensures
        final(out)@ == old(out)@ + iso_text(*c, nanos as int, sep, frac as int, mark),
{
    push_year(out, c.year, 1);
    out.push('-');
    push_two(out, c.month);
    out.push('-');
    push_two(out, c.day);
    out.push(sep);
    push_clock(out, c);
    assert(out@ =~= old(out)@ + iso_date_time(*c, sep));
    if frac > 0 {
        out.push(mark);
        push_fraction(out, nanos, frac);
        assert(out@ =~= old(out)@ + iso_text(*c, nanos as int, sep, frac as int, mark));
    }
}

fn push_ctf(out: &mut String, c: &Civil)
    ensures
        final(out)@ == old(out)@ + ctf_text(*c),
{
    out.push('[');
    out.append(weekday_label(c.weekday));
    out.push(' ');
    out.append(month_label(c.month));
    out.push(' ');
    push_two(out, c.day);
    out.push(' ');
    push_clock(out, c);
    out.push(' ');
    push_year(out, c.year, 1);
    out.push(']');
    assert(out@ =~= old(out)@ + ctf_text(*c));
}

fn push_clf(out: &mut String, c: &Civil)
    ensures
        final(out)@ == old(out)@ + clf_text(*c),
{
    push_two(out, c.day);
    out.push('/');
    out.append(month_label(c.month));
    out.push('/');
    push_year(out, c.year, 4);
    out.push(':');
    push_clock(out, c);
    out.push(' ');
    assert(out@ =~= old(out)@ + clf_text(*c));
}

fn push_syslog(out: &mut String, c: &Civil)
    ensures
        final(out)@ == old(out)@ + syslog_text(*c),
{
    out.append(month_label(c.month));
    out.push(' ');
    if c.day < 10 {
        out.push(' ');
        push_padded(out, c.day as u64, 1);
    } else {
        push_two(out, c.day);
    }
    out.push(' ');
    push_clock(out, c);
    assert(out@ =~= old(out)@ + syslog_text(*c));
}

fn push_health(out: &mut String, c: &Civil, nanos: u32)
    ensures
        final(out)@ == old(out)@ + health_text(*c, nanos as int),
{
    push_year(out, c.year, 1);
    push_two(out, c.month);
    push_two(out, c.day);
    out.push('-');
    push_clock(out, c);
    out.push(':');
    push_padded(out, (nanos / 1_000_000) as u64, 3);
    assert(out@ =~= old(out)@ + health_text(*c, nanos as int));
}

fn push_android(out: &mut String, c: &Civil, nanos: u32)
    ensures
        final(out)@ == old(out)@ + android_text(*c, nanos as int),
{
    push_two(out, c.month);
    out.push('-');
    push_two(out, c.day);
    out.push(' ');
    push_clock(out, c);
    out.push('.');
    push_padded(out, (nanos / 1_000_000) as u64, 3);
    assert(out@ =~= old(out)@ + android_text(*c, nanos as int));
}

fn push_proxifier(out: &mut String, c: &Civil)
    ensures
        final(out)@ == old(out)@ + proxifier_text(*c),
{
    out.push('[');
    push_two(out, c.month);
    out.push('.');
    push_two(out, c.day);
    out.push(' ');
    push_clock(out, c);
    out.push(']');
    assert(out@ =~= old(out)@ + proxifier_text(*c));
}

/// Appends the instant in the format, where `off` is the offset from UTC of a
/// format that has none of its own.
pub fn push_rendered(
    out: &mut String,
    f: DetectedFormat,
    aux: Aux,
    in_millis: bool,
    ts: UtcTime,
    off: i32,
)
    requires
        valid_offset(off as int),
    ensures
        final(out)@ == old(out)@ + rendered(f, aux, in_millis, ts@, off as int),
{
    let nanos: u32 = ts.subsec_nanos();
    match f {
        DetectedFormat::Iso => {
            let (sep, frac, mark, tz): (char, u8, char, Option<Zone>) = match aux {
                Aux::Iso { sep, frac, mark, tz } => (sep, frac, mark, tz),
                _ => ('T', 0, '.', Zone::new(0, ZoneStyle::UpperZ)),
            };
            match tz {
                Some(z) => {
                    push_iso(out, &ts.civil_at(z.offset()), nanos, sep, frac, mark);
                    push_zone(out, &z);
                    assert(out@ =~= old(out)@ + rendered(f, aux, in_millis, ts@, off as int));
                },
                None => push_iso(out, &ts.civil_at(off), nanos, sep, frac, mark),
            }
        },
        DetectedFormat::ApacheCtf => push_ctf(out, &ts.civil_at(off)),
        DetectedFormat::ApacheClf => {
            let tz = match aux {
                Aux::Clf { tz } => Some(tz),
                _ => Zone::new(0, ZoneStyle::Digits { minus: false, colon: false }),
            };
            if let Some(z) = tz {
                push_clf(out, &ts.civil_at(z.offset()));
                push_zone(out, &z);
                assert(out@ =~= old(out)@ + rendered(f, aux, in_millis, ts@, off as int));
            }
        },
        DetectedFormat::Epoch => {
            let n: i64 = if in_millis {
                ts.millis()
            } else {
                ts.seconds()
            };
            push_signed(out, n, 1)
        },
        DetectedFormat::SyslogNoYear => push_syslog(out, &ts.civil_at(off)),
        DetectedFormat::HealthApp => push_health(out, &ts.civil_at(off), nanos),
        DetectedFormat::Android => push_android(out, &ts.civil_at(off), nanos),
        DetectedFormat::Proxifier => push_proxifier(out, &ts.civil_at(off)),
    }
}

} // verus!
