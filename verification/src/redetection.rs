//! Laws of detection in rewritten lines: a line in which the timestamp was
//! replaced is detected as the old line was.

pub mod neighbours;
pub mod places;

use vstd::prelude::*;

use crate::classes::digit;
use crate::clock::{in_range, valid_offset};
use crate::detectors::{
    clf_here, clf_reading, detector, first_from, found, here, reading, scan, scan_from,
    signed_offset, Reading,
};
use crate::formats::{DetectedFormat, Zone, ZoneStyle};
use crate::redetection::neighbours::{
    days_at, lemma_android_before_android, lemma_android_chars, lemma_before_bracket,
    lemma_clear_of_clf, lemma_clear_of_epoch, lemma_clear_of_proxifier, lemma_clear_of_syslog,
    lemma_clf_before_epoch, lemma_clf_chars, lemma_clf_clear_before, lemma_ctf_before_clf,
    lemma_ctf_before_epoch, lemma_ctf_chars, lemma_epoch_before_epoch, lemma_epoch_chars,
    lemma_health_before_health, lemma_health_chars, lemma_iso_before_epoch, lemma_iso_clear_of_ctf,
    lemma_iso_clear_of_epoch, lemma_iso_clear_of_proxifier, lemma_iso_clear_of_syslog,
    lemma_iso_kept_before, lemma_iso_kept_before_day, lemma_proxifier_chars, lemma_syslog_chars,
    lemma_tail_before, lemma_two_digit_number,
};
use crate::redetection::places::{
    as_there, body_len, clear, ends_before, kept_before, lemma_as_before, lemma_clear_before,
    lemma_first_stands, lemma_found_first, lemma_nothing_new, lemma_rest_from, rewritten_between,
    same_after, same_before, same_part, stands,
};
use crate::render::rendered;
use crate::roundtrip::{
    counts_millis, lemma_found_format, lemma_found_offset, lemma_iso_transform_keeps_shape,
    lemma_number_digits, lemma_replaced, lemma_span, lemma_transform_reads_back, replaced, retimed,
    same_rest, sayable, written,
};
use crate::text::{ascii_digit, number};
use crate::timestamp::transformed;

verus! {

broadcast use Zone::lemma_of;

// ---------------------------------------------------------------------------
// The rewritten line
// ---------------------------------------------------------------------------

/// Where the timestamp at `i` ends.
pub open spec fn body_end(f: DetectedFormat, s: Seq<char>, i: int) -> int {
    i + body_len(f, s, i)
}

/// The first timestamp of the format in `s` stands at `i`; one stands there in
/// `b` too, and but for it the texts are the same.
pub open spec fn rewritten_first(
    f: DetectedFormat,
    s: Seq<char>,
    b: Seq<char>,
    i: int,
) -> bool {
    &&& 0 <= i
    &&& here(f, s, i)
    &&& here(f, b, i)
    &&& reading(f, s, i) is Some
    &&& reading(f, b, i) is Some
    &&& clear(f, s, 0, i)
    &&& rewritten_between(s, body_end(f, s, i), b, body_end(f, b, i), i)
}

proof fn lemma_same_before_bracket(s: Seq<char>, b: Seq<char>, i: int)
    requires
        0 <= i < s.len(),
        i < b.len(),
        s[i] == '[',
        b[i] == '[',
        forall|k: int| 0 <= k < i ==> #[trigger] s[k] == b[k],
    ensures
        same_before(s, b, i),
        forall|k: int| 0 <= k <= i ==> #[trigger] s[k] == b[k],
{
}

/// In front of a bracket, every format keeps its places.
proof fn lemma_kept_before_bracket(f: DetectedFormat, s: Seq<char>, b: Seq<char>, i: int)
    requires
        0 <= i < s.len(),
        i < b.len(),
        s[i] == '[',
        b[i] == '[',
        forall|k: int| 0 <= k < i ==> #[trigger] s[k] == b[k],
    ensures
        kept_before(f, s, b, i),
{
    lemma_same_before_bracket(s, b, i);
    assert forall|k: int| 0 <= k < i implies #[trigger] as_there(f, s, k, b, k) by {
        lemma_before_bracket(f, s, i, k);
        lemma_before_bracket(f, b, i, k);
        if f == DetectedFormat::Iso && (stands(f, s, k) || stands(f, b, k)) {
            lemma_tail_before(s, b, k + 19, i);
        }
        lemma_as_before(f, s, b, i, k);
    }
}

proof fn lemma_clear_kept(f: DetectedFormat, s: Seq<char>, b: Seq<char>, i: int)
    requires
        clear(f, s, 0, i),
        kept_before(f, s, b, i),
    ensures
        clear(f, b, 0, i),
{
    assert forall|k: int| 0 <= k < i implies !#[trigger] stands(f, b, k) by {
        assert(as_there(f, s, k, b, k));
        assert(!stands(f, s, k));
    }
}

proof fn lemma_ctf_again(s: Seq<char>, b: Seq<char>, i: int)
    requires
        rewritten_first(DetectedFormat::ApacheCtf, s, b, i),
        found(DetectedFormat::Iso, s) is None,
    ensures
        found(DetectedFormat::Iso, b) is None,
        found(DetectedFormat::ApacheCtf, b) == reading(DetectedFormat::ApacheCtf, b, i),
{
    let f = DetectedFormat::ApacheCtf;
    let e = body_end(f, s, i);
    let g = body_end(f, b, i);
    lemma_ctf_chars(s, i);
    lemma_ctf_chars(b, i);
    assert(same_after(s, e, b, g));
    lemma_kept_before_bracket(DetectedFormat::Iso, s, b, i);
    lemma_iso_clear_of_ctf(s, i);
    lemma_iso_clear_of_ctf(b, i);
    lemma_nothing_new(DetectedFormat::Iso, s, e, b, g, i);
    lemma_kept_before_bracket(f, s, b, i);
    lemma_clear_kept(f, s, b, i);
    lemma_found_first(f, b, i);
}

proof fn lemma_proxifier_again(s: Seq<char>, b: Seq<char>, i: int)
    requires
        rewritten_first(DetectedFormat::Proxifier, s, b, i),
        forall|k: int| 0 <= k < 6 ==> found(#[trigger] detector(k), s) is None,
    ensures
        forall|k: int| 0 <= k < 6 ==> found(#[trigger] detector(k), b) is None,
        found(DetectedFormat::Proxifier, b) == reading(DetectedFormat::Proxifier, b, i),
{
    let f = DetectedFormat::Proxifier;
    lemma_proxifier_chars(s, i);
    lemma_proxifier_chars(b, i);
    assert(same_after(s, i + 16, b, i + 16));
    lemma_iso_clear_of_proxifier(s, i);
    lemma_iso_clear_of_proxifier(b, i);
    lemma_clear_of_proxifier(s, i);
    lemma_clear_of_proxifier(b, i);
    assert forall|k: int| 0 <= k < 6 implies found(#[trigger] detector(k), b) is None by {
        lemma_kept_before_bracket(detector(k), s, b, i);
        lemma_nothing_new(detector(k), s, i + 16, b, i + 16, i);
    }
    lemma_kept_before_bracket(f, s, b, i);
    lemma_clear_kept(f, s, b, i);
    lemma_found_first(f, b, i);
}

proof fn lemma_clf_again(s: Seq<char>, b: Seq<char>, i: int)
    requires
        rewritten_first(DetectedFormat::ApacheClf, s, b, i),
        same_part(s, i + 21, b, i + 21, 5),
        found(DetectedFormat::Iso, s) is None,
        found(DetectedFormat::ApacheCtf, s) is None,
    ensures
        found(DetectedFormat::Iso, b) is None,
        found(DetectedFormat::ApacheCtf, b) is None,
        found(DetectedFormat::ApacheClf, b) == reading(DetectedFormat::ApacheClf, b, i),
{
    let f = DetectedFormat::ApacheClf;
    let ctf = DetectedFormat::ApacheCtf;
    lemma_clf_chars(s, i);
    lemma_clf_chars(b, i);
    assert(days_at(s, b, i));
    assert(same_rest(s, i + 21, b, i + 21)) by {
        assert forall|k: int| i + 21 <= k < s.len() implies #[trigger] s[k] == b[k - (i + 21) + (i
            + 21)] by {
            if k < i + 26 {
                assert(s[k] == b[k - (i + 21) + (i + 21)]);
            } else {
                assert(s[k] == b[k - (i + 26) + (i + 26)]);
            }
        }
    }
    assert(same_after(s, i + 21, b, i + 21));
    lemma_clear_of_clf(s, i);
    lemma_clear_of_clf(b, i);
    lemma_iso_kept_before_day(s, b, i);
    lemma_nothing_new(DetectedFormat::Iso, s, i + 21, b, i + 21, i);
    assert(same_before(s, b, i));
    assert forall|k: int| 0 <= k < i implies #[trigger] as_there(ctf, s, k, b, k) by {
        lemma_ctf_before_clf(s, i, k);
        lemma_ctf_before_clf(b, i, k);
        lemma_as_before(ctf, s, b, i, k);
    }
    lemma_nothing_new(ctf, s, i + 21, b, i + 21, i);
    lemma_clf_clear_before(s, b, i);
    lemma_found_first(f, b, i);
}

/// The part that a digit token and the character behind it take up.
proof fn lemma_after_token(s: Seq<char>, e: int, b: Seq<char>, g: int, i: int) -> (c: (int, int))
    requires
        rewritten_between(s, e, b, g, i),
        0 < e && 0 < g,
        ascii_digit(s[e - 1]),
        ascii_digit(b[g - 1]),
    ensures
        same_after(s, c.0, b, c.1),
        e < s.len() ==> c == (e + 1, g + 1),
        e == s.len() ==> c == (e, g),
        e <= c.0 && g <= c.1,
{
    if e < s.len() {
        assert(s[e] == b[e - e + g]);
        lemma_rest_from(s, e, b, g, e + 1);
        (e + 1, g + 1)
    } else {
        (e, g)
    }
}

proof fn lemma_epoch_again(s: Seq<char>, b: Seq<char>, i: int)
    requires
        rewritten_first(DetectedFormat::Epoch, s, b, i),
        forall|k: int| 0 <= k < 3 ==> found(#[trigger] detector(k), s) is None,
    ensures
        forall|k: int| 0 <= k < 3 ==> found(#[trigger] detector(k), b) is None,
        found(DetectedFormat::Epoch, b) == reading(DetectedFormat::Epoch, b, i),
{
    let f = DetectedFormat::Epoch;
    let e = body_end(f, s, i);
    let g = body_end(f, b, i);
    lemma_epoch_chars(s, i);
    lemma_epoch_chars(b, i);
    assert(ascii_digit(s[i]) && ascii_digit(b[i]));
    assert(ascii_digit(s[e - 1]) && ascii_digit(b[g - 1]));
    let (e1, g1) = lemma_after_token(s, e, b, g, i);
    assert(same_before(s, b, i));
    lemma_iso_clear_of_epoch(s, i);
    lemma_iso_clear_of_epoch(b, i);
    lemma_clear_of_epoch(s, i);
    lemma_clear_of_epoch(b, i);
    assert forall|k: int| 0 <= k < i && #[trigger] stands(DetectedFormat::Iso, s, k) implies k + 19
        <= i - 1 by {
        lemma_iso_before_epoch(s, i, k);
    }
    assert forall|k: int| 0 <= k < i && #[trigger] stands(DetectedFormat::Iso, b, k) implies k + 19
        <= i - 1 by {
        lemma_iso_before_epoch(b, i, k);
    }
    lemma_iso_kept_before(s, b, i, i - 1);
    assert(detector(0) == DetectedFormat::Iso);
    lemma_nothing_new(DetectedFormat::Iso, s, e1, b, g1, i);
    assert forall|k: int| 1 <= k < 3 implies found(#[trigger] detector(k), b) is None by {
        assert forall|p: int| 0 <= p < i implies #[trigger] as_there(
            detector(k),
            s,
            p,
            b,
            p,
        ) by {
            lemma_ctf_before_epoch(s, i, p);
            lemma_ctf_before_epoch(b, i, p);
            lemma_clf_before_epoch(s, i, p);
            lemma_clf_before_epoch(b, i, p);
            lemma_as_before(detector(k), s, b, i, p);
        }
        lemma_nothing_new(detector(k), s, e1, b, g1, i);
    }
    assert forall|k: int| 0 <= k < i && #[trigger] stands(f, b, k) implies ends_before(
        f,
        b,
        k,
        i,
    ) by {
        lemma_epoch_before_epoch(b, i, k);
    }
    lemma_clear_before(f, s, b, i);
    lemma_found_first(f, b, i);
}

proof fn lemma_syslog_again(s: Seq<char>, b: Seq<char>)
    requires
        rewritten_first(DetectedFormat::SyslogNoYear, s, b, 0),
        forall|k: int| 0 <= k < 4 ==> found(#[trigger] detector(k), s) is None,
    ensures
        forall|k: int| 0 <= k < 4 ==> found(#[trigger] detector(k), b) is None,
        found(DetectedFormat::SyslogNoYear, b) == reading(DetectedFormat::SyslogNoYear, b, 0),
{
    let f = DetectedFormat::SyslogNoYear;
    let e = body_end(f, s, 0);
    let g = body_end(f, b, 0);
    lemma_syslog_chars(s);
    lemma_syslog_chars(b);
    lemma_number_digits(s, e - 2, e);
    lemma_number_digits(b, g - 2, g);
    let (e1, g1) = lemma_after_token(s, e, b, g, 0);
    lemma_iso_clear_of_syslog(s);
    lemma_iso_clear_of_syslog(b);
    lemma_clear_of_syslog(s);
    lemma_clear_of_syslog(b);
    assert forall|k: int| 0 <= k < 4 implies found(#[trigger] detector(k), b) is None by {
        lemma_nothing_new(detector(k), s, e1, b, g1, 0);
    }
    lemma_found_first(f, b, 0);
}

proof fn lemma_health_again(s: Seq<char>, b: Seq<char>, i: int)
    requires
        rewritten_first(DetectedFormat::HealthApp, s, b, i),
    ensures
        found(DetectedFormat::HealthApp, b) == reading(DetectedFormat::HealthApp, b, i),
{
    let f = DetectedFormat::HealthApp;
    lemma_health_chars(s, i);
    lemma_health_chars(b, i);
    assert(digit(s[i]) && digit(b[i]));
    assert(same_before(s, b, i));
    assert forall|k: int| 0 <= k < i && #[trigger] stands(f, b, k) implies ends_before(
        f,
        b,
        k,
        i,
    ) by {
        lemma_health_before_health(b, i, k);
    }
    lemma_clear_before(f, s, b, i);
    lemma_found_first(f, b, i);
}

proof fn lemma_android_again(s: Seq<char>, b: Seq<char>, i: int)
    requires
        rewritten_first(DetectedFormat::Android, s, b, i),
    ensures
        found(DetectedFormat::Android, b) == reading(DetectedFormat::Android, b, i),
{
    let f = DetectedFormat::Android;
    lemma_android_chars(s, i);
    lemma_android_chars(b, i);
    assert(digit(s[i]) && digit(b[i]));
    assert(same_before(s, b, i));
    assert forall|k: int| 0 <= k < i && #[trigger] stands(f, b, k) implies ends_before(
        f,
        b,
        k,
        i,
    ) by {
        lemma_android_before_android(b, i, k);
    }
    lemma_clear_before(f, s, b, i);
    lemma_found_first(f, b, i);
}

// ---------------------------------------------------------------------------
// The law
// ---------------------------------------------------------------------------

/// The place of a format among the detectors, in the order in which they are
/// tried.
pub open spec fn rank(f: DetectedFormat) -> int {
    match f {
        DetectedFormat::Iso => 0,
        DetectedFormat::ApacheCtf => 1,
        DetectedFormat::ApacheClf => 2,
        DetectedFormat::Epoch => 3,
        DetectedFormat::SyslogNoYear => 4,
        DetectedFormat::HealthApp => 5,
        DetectedFormat::Proxifier => 6,
        DetectedFormat::Android => 7,
    }
}

/// None of the detectors in front of the `n`th finds anything.
pub open spec fn none_before(s: Seq<char>, n: int) -> bool {
    forall|k: int| 0 <= k < n ==> found(#[trigger] detector(k), s) is None
}

proof fn lemma_scan_from_parts(s: Seq<char>, k: int)
    requires
        0 <= k,
        none_before(s, k),
        scan_from(s, k) is Some,
    ensures
        ({
            let r = scan_from(s, k)->0;
            &&& found(r.format, s) == Some(r)
            &&& none_before(s, rank(r.format))
        }),
    decreases 8 - k,
{
    if k < 8 {
        if found(detector(k), s) is Some {
            lemma_found_format(detector(k), s);
        } else {
            lemma_scan_from_parts(s, k + 1);
        }
    }
}

proof fn lemma_scan_is(s: Seq<char>, k: int, n: int)
    requires
        0 <= k <= n < 8,
        none_before(s, n),
        found(detector(n), s) is Some,
    ensures
        scan_from(s, k) == found(detector(n), s),
    decreases n - k,
{
    if k < n {
        assert(found(detector(k), s) is None);
        lemma_scan_is(s, k + 1, n);
    }
}

proof fn lemma_scan_up_to(s: Seq<char>, k: int, n: int)
    requires
        0 <= k <= n < 8,
        found(detector(n), s) is Some,
    ensures
        scan_from(s, k) is Some,
        rank(scan_from(s, k)->0.format) <= n,
    decreases n - k,
{
    if found(detector(k), s) is Some {
        lemma_found_format(detector(k), s);
    } else {
        lemma_scan_up_to(s, k + 1, n);
    }
}

proof fn lemma_same_offset_digits(s: Seq<char>, b: Seq<char>, p: int)
    requires
        0 <= p,
        p + 5 <= s.len(),
        p + 5 <= b.len(),
        s[p] == '+' || s[p] == '-',
        s[p] == b[p],
        signed_offset(s, p, p + 1, p + 3) is Some,
        signed_offset(s, p, p + 1, p + 3) == signed_offset(b, p, p + 1, p + 3),
    ensures
        same_part(s, p, b, p, 5),
{
    lemma_two_digit_number(s, p + 1);
    lemma_two_digit_number(s, p + 3);
    lemma_two_digit_number(b, p + 1);
    lemma_two_digit_number(b, p + 3);
    assert(number(s, p + 1, p + 3) == number(b, p + 1, p + 3));
    assert(number(s, p + 3, p + 5) == number(b, p + 3, p + 5));
    assert(s[p + 1] == b[p + 1] && s[p + 2] == b[p + 2]);
    assert(s[p + 3] == b[p + 3] && s[p + 4] == b[p + 4]);
    assert forall|k: int| p <= k < p + 5 implies #[trigger] s[k] == b[k - p + p] by {
        assert(k == p || k == p + 1 || k == p + 2 || k == p + 3 || k == p + 4);
    }
}

/// The zone of a common log timestamp is kept as it is written.
proof fn lemma_clf_zone_kept(s: Seq<char>, b: Seq<char>, i: int)
    requires
        clf_here(s, i),
        clf_here(b, i),
        clf_reading(s, i) is Some,
        clf_reading(b, i) is Some,
        clf_reading(s, i)->0.aux == clf_reading(b, i)->0.aux,
    ensures
        same_part(s, i + 21, b, i + 21, 5),
{
    lemma_clf_chars(s, i);
    lemma_clf_chars(b, i);
    lemma_found_offset(s, i + 21, i + 22, i + 24);
    lemma_found_offset(b, i + 21, i + 22, i + 24);
    let x = signed_offset(s, i + 21, i + 22, i + 24)->0;
    let y = signed_offset(b, i + 21, i + 22, i + 24)->0;
    let u = ZoneStyle::Digits { minus: s[i + 21] == '-', colon: false };
    let v = ZoneStyle::Digits { minus: b[i + 21] == '-', colon: false };
    assert(Zone::of(x, u) == Zone::of(y, v));
    assert(Zone::of(x, u).offset_of() == x && Zone::of(y, v).offset_of() == y);
    assert(Zone::of(x, u).style_of() == u && Zone::of(y, v).style_of() == v);
    lemma_same_offset_digits(s, b, i + 21);
}

proof fn lemma_replaced_between(s: Seq<char>, i: int, e: int, x: Seq<char>)
    requires
        0 <= i <= e <= s.len(),
    ensures
        rewritten_between(s, e, replaced(s, i, e, x), i + x.len(), i),
{
    let b = replaced(s, i, e, x);
    lemma_replaced(s, i, e, x);
    assert forall|k: int| e <= k < s.len() implies #[trigger] s[k] == b[k - e + (i
        + x.len())] by {
        assert(b[k - e + (i + x.len())] == s[k - e + (i + x.len()) - x.len() + (e - i)]);
    }
}

proof fn lemma_body_end(f: DetectedFormat, s: Seq<char>, i: int)
    requires
        f != DetectedFormat::Iso,
        here(f, s, i),
        reading(f, s, i) is Some,
    ensures
        body_end(f, s, i) == reading(f, s, i)->0.end,
{
}

proof fn lemma_rewritten_first(f: DetectedFormat, s: Seq<char>, b: Seq<char>, i: int)
    requires
        f != DetectedFormat::Iso,
        0 <= i,
        first_from(f, s, 0) == Some(i),
        here(f, s, i),
        here(f, b, i),
        reading(f, s, i) is Some,
        reading(f, b, i) is Some,
        rewritten_between(s, reading(f, s, i)->0.end, b, reading(f, b, i)->0.end, i),
    ensures
        rewritten_first(f, s, b, i),
{
    lemma_first_stands(f, s);
    lemma_body_end(f, s, i);
    lemma_body_end(f, b, i);
}

/// What is found in the transformed line when it is found where the old
/// timestamp was: the same format and details, and the new instant to the
/// precision of the format.
pub open spec fn found_again(s: Seq<char>, t: int, off: int) -> Reading {
    let r = scan(s)->0;
    let ms = counts_millis(r);
    Reading {
        start: r.start,
        end: r.start + rendered(r.format, r.aux, ms, t, off).len(),
        format: r.format,
        aux: r.aux,
        moment: written(r.format, r.aux, ms, t, off),
    }
}

/// A transformed line is detected again, and the timestamp that is detected in
/// it is the new one: it stands where the old one stood, in the same format
/// with the same details, and says the new instant to the precision of the
/// format. Of HealthApp and Android this holds unless the new digits complete,
/// with what stands beside them, a timestamp that a detector tried earlier
/// finds: `2005-02-29 19:31:36.263` is no date, but its part without the year
/// is one, and that part may become a date of 2005.
pub proof fn lemma_transformed_line_is_detected(s: Seq<char>, t: int, off: int)
    requires
        scan(s) is Some,
        in_range(t),
        valid_offset(off),
        sayable(scan(s)->0.format, scan(s)->0.aux, counts_millis(scan(s)->0), t, off),
    ensures
        ({
            let f = scan(s)->0.format;
            let b = transformed(s, t, off);
            &&& scan(b) is Some
            &&& rank(scan(b)->0.format) <= rank(f)
            &&& f != DetectedFormat::HealthApp && f != DetectedFormat::Android ==> scan(b) == Some(
                found_again(s, t, off),
            )
            &&& none_before(b, rank(f)) ==> scan(b) == Some(found_again(s, t, off))
        }),
{
    let r = scan(s)->0;
    let f = r.format;
    let i = r.start;
    lemma_scan_from_parts(s, 0);
    lemma_first_stands(f, s);
    let j = first_from(f, s, 0)->0;
    assert(here(f, s, j)) by {
        reveal(stands);
    }
    lemma_span(f, s, j);
    assert(i == j);
    lemma_transform_reads_back(f, s, i, t, off);
    let b = retimed(f, s, i, t, off);
    assert(b == transformed(s, t, off));
    assert(reading(f, b, i) == Some(found_again(s, t, off)));
    if f == DetectedFormat::Iso {
        lemma_iso_again(s, t, off);
    } else {
        lemma_replaced_between(s, i, r.end, rendered(f, r.aux, counts_millis(r), t, off));
        lemma_rewritten_first(f, s, b, i);
        lemma_again(f, s, b, i);
    }
    assert(detector(rank(f)) == f);
    lemma_scan_up_to(b, 0, rank(f));
    if none_before(b, rank(f)) {
        lemma_scan_is(b, 0, rank(f));
    }
}

proof fn lemma_iso_again(s: Seq<char>, t: int, off: int)
    requires
        scan(s) is Some,
        scan(s)->0.format == DetectedFormat::Iso,
        in_range(t),
        valid_offset(off),
        sayable(scan(s)->0.format, scan(s)->0.aux, counts_millis(scan(s)->0), t, off),
    ensures
        found(DetectedFormat::Iso, transformed(s, t, off)) is Some,
        scan(transformed(s, t, off)) is Some,
        found(DetectedFormat::Iso, transformed(s, t, off)) == reading(
            DetectedFormat::Iso,
            transformed(s, t, off),
            scan(s)->0.start,
        ),
{
    let r = scan(s)->0;
    lemma_iso_transform_keeps_shape(s, t, off);
    let b = transformed(s, t, off);
    assert(b == replaced(s, r.start, r.end, rendered(r.format, r.aux, false, t, off)));
    lemma_scan_from_parts(b, 0);
    lemma_first_stands(DetectedFormat::Iso, b);
}

/// Each detector finds what stands in the place of its find, and, but for the
/// two formats, those tried earlier find nothing.
proof fn lemma_again(f: DetectedFormat, s: Seq<char>, b: Seq<char>, i: int)
    requires
        f != DetectedFormat::Iso,
        rewritten_first(f, s, b, i),
        none_before(s, rank(f)),
        reading(f, s, i)->0.aux == reading(f, b, i)->0.aux,
    ensures
        found(f, b) == reading(f, b, i),
        f != DetectedFormat::HealthApp && f != DetectedFormat::Android ==> none_before(b, rank(f)),
{
    match f {
        DetectedFormat::ApacheCtf => {
            assert(found(detector(0), s) is None);
            lemma_ctf_again(s, b, i);
        },
        DetectedFormat::ApacheClf => {
            assert(found(detector(0), s) is None);
            assert(found(detector(1), s) is None);
            lemma_clf_zone_kept(s, b, i);
            lemma_clf_again(s, b, i);
        },
        DetectedFormat::Epoch => lemma_epoch_again(s, b, i),
        DetectedFormat::SyslogNoYear => lemma_syslog_again(s, b),
        DetectedFormat::HealthApp => lemma_health_again(s, b, i),
        DetectedFormat::Proxifier => lemma_proxifier_again(s, b, i),
        DetectedFormat::Android => lemma_android_again(s, b, i),
        DetectedFormat::Iso => {},
    }
}

} // verus!
