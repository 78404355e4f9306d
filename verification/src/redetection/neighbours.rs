//! Timestamps beside one another: which can reach into which, and what becomes
//! of the one when the other is rewritten.

use vstd::prelude::*;

use crate::classes::{digit, fits, fits_mark, word};
use crate::detectors::{
    clf_here, ctf_here, day_end, day_start, digit_run, digits_end, epoch_here, fraction_end, here,
    iso_here, iso_reading, syslog_here, zone_at, zone_len,
};
use crate::formats::DetectedFormat;
use crate::redetection::places::{
    as_there, clear, ends_before, is_void, kept_before, lemma_as_before, lemma_digits_stop,
    lemma_same_part_fits, lemma_same_part_text, lemma_stands_before, same_before, same_part,
    same_tail, stands,
};
use crate::roundtrip::lemma_digit_run_stops;
use crate::text::{
    all_digits, ascii_digit, ascii_letter, digit_value, digits_value, number, white_space,
};

verus! {

// ---------------------------------------------------------------------------
// The characters of a timestamp
// ---------------------------------------------------------------------------

/// A digit, a word character, a space or a colon.
pub open spec fn plain(c: char) -> bool {
    digit(c) || word(c) || c == ' ' || c == ':'
}

proof fn lemma_iso_chars(s: Seq<char>, k: int)
    requires
        fits(s, k, "dddd-dd-ddtdd:dd:dd"@),
    ensures
        0 <= k,
        k + 19 <= s.len(),
        forall|p: int|
            k <= p < k + 19 && p != k + 4 && p != k + 7 && p != k + 10 && p != k + 13 && p != k + 16
                ==> digit(#[trigger] s[p]),
        s[k + 4] == '-',
        s[k + 7] == '-',
        s[k + 10] == 'T' || s[k + 10] == ' ',
        s[k + 13] == ':',
        s[k + 16] == ':',
{
    let shape = "dddd-dd-ddtdd:dd:dd"@;
    reveal_strlit("dddd-dd-ddtdd:dd:dd");
    assert forall|p: int|
        k <= p < k + 19 && p != k + 4 && p != k + 7 && p != k + 10 && p != k + 13 && p != k
            + 16 implies digit(#[trigger] s[p]) by {
        assert(fits_mark(shape[p - k], s[k + (p - k)]));
    }
    assert(fits_mark(shape[4], s[k + 4]));
    assert(fits_mark(shape[7], s[k + 7]));
    assert(fits_mark(shape[10], s[k + 10]));
    assert(fits_mark(shape[13], s[k + 13]));
    assert(fits_mark(shape[16], s[k + 16]));
}

proof fn lemma_clock_chars(s: Seq<char>, e: int)
    requires
        fits(s, e, " dd:dd:dd"@),
    ensures
        0 <= e,
        e + 9 <= s.len(),
        s[e] == ' ',
        s[e + 3] == ':',
        s[e + 6] == ':',
        forall|p: int| e <= p < e + 9 ==> plain(#[trigger] s[p]),
{
    let shape = " dd:dd:dd"@;
    reveal_strlit(" dd:dd:dd");
    assert(fits_mark(shape[0], s[e + 0]));
    assert(fits_mark(shape[3], s[e + 3]));
    assert(fits_mark(shape[6], s[e + 6]));
    assert forall|p: int| e <= p < e + 9 implies plain(#[trigger] s[p]) by {
        assert(fits_mark(shape[p - e], s[e + (p - e)]));
    }
}

proof fn lemma_day_chars(s: Seq<char>, p: int)
    requires
        0 <= p <= s.len(),
        day_start(s, p) < day_end(s, p),
    ensures
        p < day_end(s, p) <= p + 3,
        day_end(s, p) <= s.len(),
        forall|k: int| p <= k < day_end(s, p) ==> plain(#[trigger] s[k]),
{
    lemma_digit_run_stops(s, day_start(s, p), 2);
}

pub(crate) proof fn lemma_ctf_chars(s: Seq<char>, i: int)
    requires
        ctf_here(s, i),
    ensures
        ({
            let e = day_end(s, i + 9);
            &&& 0 <= i
            &&& i + 10 <= e <= i + 12
            &&& e + 15 <= s.len()
            &&& s[i] == '['
            &&& s[i + 4] == ' '
            &&& s[i + 8] == ' '
            &&& s[e] == ' '
            &&& s[e + 3] == ':'
            &&& s[e + 6] == ':'
            &&& s[e + 9] == ' '
            &&& s[e + 14] == ']'
            &&& forall|p: int| i < p < e + 14 ==> plain(#[trigger] s[p])
        }),
{
    let e = day_end(s, i + 9);
    let head = "[www www "@;
    let tail = " dd:dd:dd dddd]"@;
    reveal_strlit("[www www ");
    reveal_strlit(" dd:dd:dd dddd]");
    assert(fits_mark(head[0], s[i + 0]));
    assert(fits_mark(head[4], s[i + 4]));
    assert(fits_mark(head[8], s[i + 8]));
    assert(fits_mark(tail[0], s[e + 0]));
    assert(fits_mark(tail[3], s[e + 3]));
    assert(fits_mark(tail[6], s[e + 6]));
    assert(fits_mark(tail[9], s[e + 9]));
    assert(fits_mark(tail[14], s[e + 14]));
    lemma_day_chars(s, i + 9);
    assert forall|p: int| i < p < e + 14 implies plain(#[trigger] s[p]) by {
        if p < i + 9 {
            assert(fits_mark(head[p - i], s[i + (p - i)]));
        } else if p >= e {
            assert(fits_mark(tail[p - e], s[e + (p - e)]));
        }
    }
}

pub(crate) proof fn lemma_clf_chars(s: Seq<char>, i: int)
    requires
        fits(s, i, "dd/www/dddd:dd:dd:dd sdddd"@),
    ensures
        0 <= i,
        i + 26 <= s.len(),
        digit(s[i]),
        digit(s[i + 1]),
        s[i + 2] == '/',
        s[i + 6] == '/',
        s[i + 20] == ' ',
        s[i + 21] == '+' || s[i + 21] == '-',
        forall|p: int| i + 22 <= p < i + 26 ==> digit(#[trigger] s[p]),
        forall|p: int|
            i <= p < i + 21 && p != i + 2 && p != i + 6 ==> plain(#[trigger] s[p]) && (s[p] == ' '
                ==> p == i + 20),
{
    let shape = "dd/www/dddd:dd:dd:dd sdddd"@;
    reveal_strlit("dd/www/dddd:dd:dd:dd sdddd");
    assert(fits_mark(shape[0], s[i + 0]));
    assert(fits_mark(shape[1], s[i + 1]));
    assert(fits_mark(shape[2], s[i + 2]));
    assert(fits_mark(shape[6], s[i + 6]));
    assert(fits_mark(shape[20], s[i + 20]));
    assert(fits_mark(shape[21], s[i + 21]));
    assert forall|p: int| i + 22 <= p < i + 26 implies digit(#[trigger] s[p]) by {
        assert(fits_mark(shape[p - i], s[i + (p - i)]));
    }
    assert forall|p: int| i <= p < i + 21 && p != i + 2 && p != i + 6 implies plain(
        #[trigger] s[p],
    ) && (s[p] == ' ' ==> p == i + 20) by {
        assert(fits_mark(shape[p - i], s[i + (p - i)]));
    }
}

/// The digits of an epoch, with a space, a tab or an end of the line on both
/// sides.
pub(crate) proof fn lemma_epoch_chars(s: Seq<char>, i: int)
    requires
        epoch_here(s, i),
    ensures
        ({
            let j = digits_end(s, i);
            &&& 0 <= i
            &&& i + 9 <= j <= i + 13
            &&& j <= s.len()
            &&& forall|p: int| i <= p < j ==> ascii_digit(#[trigger] s[p])
            &&& i > 0 ==> s[i - 1] == ' ' || s[i - 1] == '\t'
            &&& j < s.len() ==> s[j] == ' ' || s[j] == '\t'
        }),
{
    lemma_digits_stop(s, i);
}

pub(crate) proof fn lemma_syslog_chars(s: Seq<char>)
    requires
        syslog_here(s, 0),
    ensures
        ({
            let e = day_end(s, 4);
            &&& 5 <= e <= 7
            &&& e + 9 <= s.len()
            &&& forall|p: int| 0 <= p < 3 ==> ascii_letter(#[trigger] s[p])
            &&& s[3] == ' '
            &&& s[e] == ' '
            &&& s[e + 3] == ':'
            &&& s[e + 6] == ':'
            &&& forall|p: int| 0 <= p < e + 9 ==> plain(#[trigger] s[p])
            &&& e + 9 < s.len() ==> white_space(s[e + 9])
        }),
{
    let e = day_end(s, 4);
    let head = "aaa "@;
    reveal_strlit("aaa ");
    assert(fits_mark(head[3], s[0int + 3]));
    assert forall|p: int| 0 <= p < 3 implies ascii_letter(#[trigger] s[p]) by {
        assert(fits_mark(head[p], s[0int + p]));
    }
    lemma_day_chars(s, 4);
    lemma_clock_chars(s, e);
}

pub(crate) proof fn lemma_proxifier_chars(s: Seq<char>, i: int)
    requires
        fits(s, i, "[dd.dd dd:dd:dd]"@),
    ensures
        0 <= i,
        i + 16 <= s.len(),
        s[i] == '[',
        s[i + 3] == '.',
        s[i + 6] == ' ',
        s[i + 9] == ':',
        s[i + 15] == ']',
        forall|p: int|
            i < p < i + 15 && p != i + 3 && p != i + 6 && p != i + 9 && p != i + 12 ==> digit(
                #[trigger] s[p],
            ),
        s[i + 12] == ':',
{
    let shape = "[dd.dd dd:dd:dd]"@;
    reveal_strlit("[dd.dd dd:dd:dd]");
    assert(fits_mark(shape[0], s[i + 0]));
    assert(fits_mark(shape[3], s[i + 3]));
    assert(fits_mark(shape[6], s[i + 6]));
    assert(fits_mark(shape[9], s[i + 9]));
    assert(fits_mark(shape[12], s[i + 12]));
    assert(fits_mark(shape[15], s[i + 15]));
    assert forall|p: int|
        i < p < i + 15 && p != i + 3 && p != i + 6 && p != i + 9 && p != i + 12 implies digit(
        #[trigger] s[p],
    ) by {
        assert(fits_mark(shape[p - i], s[i + (p - i)]));
    }
}

pub(crate) proof fn lemma_health_chars(s: Seq<char>, i: int)
    requires
        fits(s, i, "dddddddd-dd:dd:dd:ddd"@),
    ensures
        0 <= i,
        i + 21 <= s.len(),
        s[i + 8] == '-',
        s[i + 11] == ':',
        s[i + 14] == ':',
        s[i + 17] == ':',
        forall|p: int|
            i <= p < i + 21 && p != i + 8 && p != i + 11 && p != i + 14 && p != i + 17 ==> digit(
                #[trigger] s[p],
            ),
{
    let shape = "dddddddd-dd:dd:dd:ddd"@;
    reveal_strlit("dddddddd-dd:dd:dd:ddd");
    assert(fits_mark(shape[8], s[i + 8]));
    assert(fits_mark(shape[11], s[i + 11]));
    assert(fits_mark(shape[14], s[i + 14]));
    assert(fits_mark(shape[17], s[i + 17]));
    assert forall|p: int|
        i <= p < i + 21 && p != i + 8 && p != i + 11 && p != i + 14 && p != i + 17 implies digit(
        #[trigger] s[p],
    ) by {
        assert(fits_mark(shape[p - i], s[i + (p - i)]));
    }
}

pub(crate) proof fn lemma_android_chars(s: Seq<char>, i: int)
    requires
        fits(s, i, "dd-dd dd:dd:dd.ddd"@),
    ensures
        0 <= i,
        i + 18 <= s.len(),
        s[i + 2] == '-',
        s[i + 5] == ' ',
        s[i + 8] == ':',
        s[i + 11] == ':',
        s[i + 14] == '.',
        forall|p: int|
            i <= p < i + 18 && p != i + 2 && p != i + 5 && p != i + 8 && p != i + 11 && p != i + 14
                ==> digit(#[trigger] s[p]),
{
    let shape = "dd-dd dd:dd:dd.ddd"@;
    reveal_strlit("dd-dd dd:dd:dd.ddd");
    assert(fits_mark(shape[2], s[i + 2]));
    assert(fits_mark(shape[5], s[i + 5]));
    assert(fits_mark(shape[8], s[i + 8]));
    assert(fits_mark(shape[11], s[i + 11]));
    assert(fits_mark(shape[14], s[i + 14]));
    assert forall|p: int|
        i <= p < i + 18 && p != i + 2 && p != i + 5 && p != i + 8 && p != i + 11 && p != i
            + 14 implies digit(#[trigger] s[p]) by {
        assert(fits_mark(shape[p - i], s[i + (p - i)]));
    }
}

// ---------------------------------------------------------------------------
// ISO beside other timestamps
// ---------------------------------------------------------------------------

/// No fraction and no zone goes on with the character.
pub open spec fn stops_tail(c: char) -> bool {
    &&& !digit(c)
    &&& c != '.' && c != ','
    &&& c != 'Z' && c != 'z'
    &&& c != '+' && c != '-' && c != ':'
}

proof fn lemma_run_before(s: Seq<char>, b: Seq<char>, p: int, w: int, max: int)
    requires
        0 <= p <= w < s.len(),
        w < b.len(),
        forall|k: int| 0 <= k <= w ==> #[trigger] s[k] == b[k],
        !digit(s[w]),
    ensures
        digit_run(s, p, max) == digit_run(b, p, max),
        p + digit_run(s, p, max) <= w,
    decreases max,
{
    assert(s[p] == b[p]);
    if 0 < max && digit(s[p]) {
        assert(p < w);
        lemma_run_before(s, b, p + 1, w, max - 1);
    }
}

proof fn lemma_sign_before(s: Seq<char>, b: Seq<char>, u: int, w: int, shape: Seq<char>)
    requires
        0 <= u <= w < s.len(),
        w < b.len(),
        forall|k: int| 0 <= k <= w ==> #[trigger] s[k] == b[k],
        stops_tail(s[w]),
        shape == "sdd:dd"@ || shape == "sdddd"@ || shape == "sdd"@,
    ensures
        fits(s, u, shape) == fits(b, u, shape),
        fits(s, u, shape) ==> u + shape.len() <= w,
{
    reveal_strlit("sdd:dd");
    reveal_strlit("sdddd");
    reveal_strlit("sdd");
    if u + shape.len() <= w {
        assert(same_part(s, u, b, u, shape.len() as int));
        lemma_same_part_fits(s, u, b, u, shape.len() as int, 0, shape);
    } else {
        assert(s[w] == b[w]);
        assert(0 <= w - u < shape.len());
        if fits(s, u, shape) {
            assert(fits_mark(shape[w - u], s[u + (w - u)]));
        }
        if fits(b, u, shape) {
            assert(fits_mark(shape[w - u], b[u + (w - u)]));
        }
    }
}

pub(crate) proof fn lemma_tail_before(s: Seq<char>, b: Seq<char>, p: int, w: int)
    requires
        0 <= p <= w < s.len(),
        w < b.len(),
        forall|k: int| 0 <= k <= w ==> #[trigger] s[k] == b[k],
        stops_tail(s[w]),
    ensures
        same_tail(s, p, b, p),
{
    assert(s[p] == b[p]);
    if s[p] == '.' || s[p] == ',' {
        assert(p < w);
        lemma_run_before(s, b, p + 1, w, 9);
    }
    let u = fraction_end(s, p);
    assert(u == fraction_end(b, p));
    assert(p <= u <= w) by {
        lemma_digit_run_stops(s, p, 9);
    }
    assert(s[u] == b[u]);
    lemma_sign_before(s, b, u, w, "sdd:dd"@);
    lemma_sign_before(s, b, u, w, "sdddd"@);
    lemma_sign_before(s, b, u, w, "sdd"@);
    reveal_strlit("sdd:dd");
    reveal_strlit("sdddd");
    let n = zone_len(s, u);
    if n == 5 || n == 6 {
        assert(same_part(s, u, b, u, n));
        lemma_same_part_text(s, u, b, u, n, 1, 3);
        lemma_same_part_text(s, u, b, u, n, n - 2, n);
    }
}

/// ISO keeps its places in front of a character that it has no place for.
pub(crate) proof fn lemma_iso_kept_before(s: Seq<char>, b: Seq<char>, i: int, w: int)
    requires
        same_before(s, b, i),
        w <= i,
        w < s.len(),
        w < b.len(),
        i > 0 ==> {
            &&& 0 <= w
            &&& forall|k: int| 0 <= k <= w ==> #[trigger] s[k] == b[k]
            &&& stops_tail(s[w])
        },
        forall|k: int|
            0 <= k < i && #[trigger] stands(DetectedFormat::Iso, s, k) ==> k + 19 <= w,
        forall|k: int|
            0 <= k < i && #[trigger] stands(DetectedFormat::Iso, b, k) ==> k + 19 <= w,
    ensures
        kept_before(DetectedFormat::Iso, s, b, i),
{
    let f = DetectedFormat::Iso;
    assert forall|k: int| 0 <= k < i implies #[trigger] as_there(f, s, k, b, k) by {
        if stands(f, s, k) || stands(f, b, k) {
            lemma_tail_before(s, b, k + 19, w);
        }
        lemma_as_before(f, s, b, i, k);
    }
}

/// ISO does not reach past a bracket.
proof fn lemma_iso_before_bracket(s: Seq<char>, i: int, k: int)
    requires
        0 <= k < i < s.len(),
        s[i] == '[',
        stands(DetectedFormat::Iso, s, k),
    ensures
        k + 19 <= i,
{
    reveal(stands);
    lemma_iso_chars(s, k);
    if i < k + 19 {
        assert(digit(s[i]) || i == k + 4 || i == k + 7 || i == k + 10 || i == k + 13 || i == k
            + 16);
    }
}

pub(crate) proof fn lemma_iso_clear_of_ctf(s: Seq<char>, i: int)
    requires
        ctf_here(s, i),
    ensures
        clear(DetectedFormat::Iso, s, i, day_end(s, i + 9) + 15),
{
    reveal(stands);
    let e = day_end(s, i + 9);
    lemma_ctf_chars(s, i);
    assert forall|k: int| i <= k < e + 15 implies !#[trigger] stands(
        DetectedFormat::Iso,
        s,
        k,
    ) by {
        if iso_here(s, k) {
            lemma_iso_chars(s, k);
            assert(digit(s[k]) && digit(s[k + 1]) && digit(s[k + 2]) && digit(s[k + 3]));
            assert(k > i);
            if k + 4 < e + 14 {
                assert(plain(s[k + 4]));
            } else {
                assert(s[e + 14] == ']');
            }
        }
    }
}

pub(crate) proof fn lemma_iso_clear_of_proxifier(s: Seq<char>, i: int)
    requires
        here(DetectedFormat::Proxifier, s, i),
    ensures
        clear(DetectedFormat::Iso, s, i, i + 16),
{
    reveal(stands);
    lemma_proxifier_chars(s, i);
    assert forall|k: int| i <= k < i + 16 implies !#[trigger] stands(
        DetectedFormat::Iso,
        s,
        k,
    ) by {
        if iso_here(s, k) {
            lemma_iso_chars(s, k);
            assert(digit(s[k]) && digit(s[k + 1]) && digit(s[k + 2]) && digit(s[k + 3]));
        }
    }
}

pub(crate) proof fn lemma_iso_clear_of_epoch(s: Seq<char>, i: int)
    requires
        epoch_here(s, i),
    ensures
        clear(DetectedFormat::Iso, s, i, digits_end(s, i) + 1),
{
    reveal(stands);
    let j = digits_end(s, i);
    lemma_epoch_chars(s, i);
    assert forall|k: int| i <= k < j + 1 implies !#[trigger] stands(
        DetectedFormat::Iso,
        s,
        k,
    ) by {
        if iso_here(s, k) {
            lemma_iso_chars(s, k);
            assert(digit(s[k]) && digit(s[k + 1]) && digit(s[k + 2]) && digit(s[k + 3]));
            if k + 4 < j {
                assert(ascii_digit(s[k + 4]));
            }
        }
    }
}

/// ISO does not reach into an epoch.
pub(crate) proof fn lemma_iso_before_epoch(s: Seq<char>, i: int, k: int)
    requires
        epoch_here(s, i),
        0 <= k < i,
        stands(DetectedFormat::Iso, s, k),
    ensures
        k + 19 <= i - 1,
{
    reveal(stands);
    lemma_epoch_chars(s, i);
    lemma_iso_chars(s, k);
    if i - 1 < k + 19 {
        assert(i - 1 == k + 10) by {
            assert(!digit(s[i - 1]));
        }
        assert(ascii_digit(s[i + 2]));
    }
}

pub(crate) proof fn lemma_iso_clear_of_syslog(s: Seq<char>)
    requires
        syslog_here(s, 0),
    ensures
        clear(DetectedFormat::Iso, s, 0, day_end(s, 4) + 10),
{
    reveal(stands);
    let e = day_end(s, 4) + 9;
    lemma_syslog_chars(s);
    assert forall|k: int| 0 <= k < e + 1 implies !#[trigger] stands(
        DetectedFormat::Iso,
        s,
        k,
    ) by {
        if iso_here(s, k) {
            lemma_iso_chars(s, k);
            assert(digit(s[k]) && digit(s[k + 1]) && digit(s[k + 2]) && digit(s[k + 3]));
            if k + 4 < e {
                assert(plain(s[k + 4]));
            } else {
                assert(white_space(s[e]));
            }
        }
    }
}

// ---------------------------------------------------------------------------
// Other formats in front of a timestamp
// ---------------------------------------------------------------------------

/// No timestamp reaches past an opening bracket.
pub(crate) proof fn lemma_before_bracket(f: DetectedFormat, s: Seq<char>, i: int, k: int)
    requires
        0 <= k < i < s.len(),
        s[i] == '[',
    ensures
        ends_before(f, s, k, i),
{
    reveal(stands);
    if here(f, s, k) {
        match f {
            DetectedFormat::Iso => {
                lemma_iso_before_bracket(s, i, k);
            },
            DetectedFormat::ApacheCtf => {
                lemma_ctf_chars(s, k);
                if i < day_end(s, k + 9) + 14 {
                    assert(plain(s[i]));
                }
            },
            DetectedFormat::ApacheClf => {
                lemma_clf_chars(s, k);
            },
            DetectedFormat::Epoch => {
                lemma_epoch_chars(s, k);
            },
            DetectedFormat::SyslogNoYear => {
                lemma_syslog_chars(s);
                if i < day_end(s, 4) + 9 {
                    assert(plain(s[i]));
                }
            },
            DetectedFormat::HealthApp => {
                lemma_health_chars(s, k);
            },
            DetectedFormat::Android => {
                lemma_android_chars(s, k);
            },
            DetectedFormat::Proxifier => {
                lemma_proxifier_chars(s, k);
            },
        }
    }
}

pub(crate) proof fn lemma_ctf_before_clf(s: Seq<char>, i: int, k: int)
    requires
        fits(s, i, "dd/www/dddd:dd:dd:dd sdddd"@),
        0 <= k < i,
    ensures
        ends_before(DetectedFormat::ApacheCtf, s, k, i),
{
    reveal(stands);
    lemma_clf_chars(s, i);
    if ctf_here(s, k) {
        lemma_ctf_chars(s, k);
        let e = day_end(s, k + 9);
        if i + 2 < e + 14 {
            assert(plain(s[i + 2]));
        }
    }
}

pub(crate) proof fn lemma_ctf_before_epoch(s: Seq<char>, i: int, k: int)
    requires
        epoch_here(s, i),
        0 <= k < i,
    ensures
        ends_before(DetectedFormat::ApacheCtf, s, k, i),
{
    reveal(stands);
    lemma_epoch_chars(s, i);
    if ctf_here(s, k) {
        lemma_ctf_chars(s, k);
        let e = day_end(s, k + 9);
        if i < e + 15 {
            let p = if i <= k + 4 {
                k + 4
            } else if i <= k + 8 {
                k + 8
            } else if i <= e {
                e
            } else if i <= e + 3 {
                e + 3
            } else if i <= e + 6 {
                e + 6
            } else if i <= e + 9 {
                e + 9
            } else {
                e + 14
            };
            assert(ascii_digit(s[p]));
        }
    }
}

pub(crate) proof fn lemma_clf_before_epoch(s: Seq<char>, i: int, k: int)
    requires
        epoch_here(s, i),
        0 <= k < i,
    ensures
        ends_before(DetectedFormat::ApacheClf, s, k, i),
{
    reveal(stands);
    lemma_epoch_chars(s, i);
    if clf_here(s, k) {
        lemma_clf_chars(s, k);
        if i < k + 26 {
            assert(ascii_digit(s[i]));
            assert(i - 1 == k + 20);
        }
    }
}

// ---------------------------------------------------------------------------
// Other formats inside a timestamp
// ---------------------------------------------------------------------------

pub(crate) proof fn lemma_clear_of_clf(s: Seq<char>, i: int)
    requires
        fits(s, i, "dd/www/dddd:dd:dd:dd sdddd"@),
    ensures
        clear(DetectedFormat::Iso, s, i, i + 21),
        clear(DetectedFormat::ApacheCtf, s, i, i + 21),
{
    reveal(stands);
    lemma_clf_chars(s, i);
    assert forall|k: int| i <= k < i + 21 implies !#[trigger] stands(
        DetectedFormat::Iso,
        s,
        k,
    ) by {
        if iso_here(s, k) {
            lemma_iso_chars(s, k);
            assert(digit(s[k]) && digit(s[k + 1]) && digit(s[k + 2]) && digit(s[k + 3]));
            if k + 4 < i + 21 {
                assert(s[k + 4] == '/' || plain(s[k + 4]));
            } else if k + 4 >= i + 22 {
                assert(k + 4 < i + 26);
                assert(digit(s[k + 4]));
            } else {
                assert(s[k + 3] == ' ');
            }
        }
    }
    assert forall|k: int| i <= k < i + 21 implies !#[trigger] stands(
        DetectedFormat::ApacheCtf,
        s,
        k,
    ) by {
        if ctf_here(s, k) {
            lemma_ctf_chars(s, k);
            assert(s[k] == '/' || plain(s[k]));
        }
    }
}

pub(crate) proof fn lemma_clear_of_epoch(s: Seq<char>, i: int)
    requires
        epoch_here(s, i),
    ensures
        clear(DetectedFormat::ApacheCtf, s, i, digits_end(s, i) + 1),
        clear(DetectedFormat::ApacheClf, s, i, digits_end(s, i) + 1),
{
    reveal(stands);
    let j = digits_end(s, i);
    lemma_epoch_chars(s, i);
    assert forall|k: int| i <= k < j + 1 implies !#[trigger] stands(
        DetectedFormat::ApacheCtf,
        s,
        k,
    ) by {
        if ctf_here(s, k) {
            lemma_ctf_chars(s, k);
            if k < j {
                assert(ascii_digit(s[k]));
            }
        }
    }
    assert forall|k: int| i <= k < j + 1 implies !#[trigger] stands(
        DetectedFormat::ApacheClf,
        s,
        k,
    ) by {
        if clf_here(s, k) {
            lemma_clf_chars(s, k);
            if k + 2 < j {
                assert(ascii_digit(s[k + 2]));
            }
        }
    }
}

/// Digits do not go on past a character that is none.
proof fn lemma_digits_end_within(s: Seq<char>, k: int, p: int)
    requires
        0 <= k <= p <= s.len(),
        p < s.len() ==> !ascii_digit(s[p]),
    ensures
        k <= digits_end(s, k) <= p,
{
    lemma_digits_stop(s, k);
    if digits_end(s, k) > p {
        assert(ascii_digit(s[p]));
    }
}

pub(crate) proof fn lemma_clear_of_syslog(s: Seq<char>)
    requires
        syslog_here(s, 0),
    ensures
        clear(DetectedFormat::ApacheCtf, s, 0, day_end(s, 4) + 10),
        clear(DetectedFormat::ApacheClf, s, 0, day_end(s, 4) + 10),
        clear(DetectedFormat::Epoch, s, 0, day_end(s, 4) + 10),
{
    reveal(stands);
    let e = day_end(s, 4);
    lemma_syslog_chars(s);
    assert forall|k: int| 0 <= k < e + 10 implies !#[trigger] stands(
        DetectedFormat::ApacheCtf,
        s,
        k,
    ) by {
        if ctf_here(s, k) {
            lemma_ctf_chars(s, k);
            if k < e + 9 {
                assert(plain(s[k]));
            }
        }
    }
    assert forall|k: int| 0 <= k < e + 10 implies !#[trigger] stands(
        DetectedFormat::ApacheClf,
        s,
        k,
    ) by {
        if clf_here(s, k) {
            lemma_clf_chars(s, k);
            if k + 2 < e + 9 {
                assert(plain(s[k + 2]));
            }
        }
    }
    assert forall|k: int| 0 <= k < e + 10 implies !#[trigger] stands(
        DetectedFormat::Epoch,
        s,
        k,
    ) by {
        if epoch_here(s, k) {
            let p = if k < 3 {
                k
            } else if k <= e {
                e
            } else if k <= e + 3 {
                e + 3
            } else if k <= e + 6 {
                e + 6
            } else {
                e + 9
            };
            if k < 3 {
                assert(ascii_letter(s[k]));
            }
            lemma_digits_end_within(s, k, p);
        }
    }
}

pub(crate) proof fn lemma_clear_of_proxifier(s: Seq<char>, i: int)
    requires
        here(DetectedFormat::Proxifier, s, i),
    ensures
        clear(DetectedFormat::ApacheCtf, s, i, i + 16),
        clear(DetectedFormat::ApacheClf, s, i, i + 16),
        clear(DetectedFormat::Epoch, s, i, i + 16),
        clear(DetectedFormat::SyslogNoYear, s, i, i + 16),
        clear(DetectedFormat::HealthApp, s, i, i + 16),
{
    reveal(stands);
    lemma_proxifier_chars(s, i);
    assert forall|k: int| i <= k < i + 16 implies !#[trigger] stands(
        DetectedFormat::ApacheCtf,
        s,
        k,
    ) by {
        if ctf_here(s, k) {
            lemma_ctf_chars(s, k);
            assert(k == i);
            assert(plain(s[i + 3]));
        }
    }
    assert forall|k: int| i <= k < i + 16 implies !#[trigger] stands(
        DetectedFormat::ApacheClf,
        s,
        k,
    ) by {
        if clf_here(s, k) {
            lemma_clf_chars(s, k);
        }
    }
    assert forall|k: int| i <= k < i + 16 implies !#[trigger] stands(
        DetectedFormat::Epoch,
        s,
        k,
    ) by {
        if epoch_here(s, k) {
            let p = if k <= i {
                i
            } else if k <= i + 3 {
                i + 3
            } else if k <= i + 9 {
                i + 9
            } else {
                i + 15
            };
            lemma_digits_end_within(s, k, p);
        }
    }
    assert forall|k: int| i <= k < i + 16 implies !#[trigger] stands(
        DetectedFormat::SyslogNoYear,
        s,
        k,
    ) by {
        if syslog_here(s, k) {
            lemma_syslog_chars(s);
            assert(ascii_letter(s[0]));
        }
    }
    assert forall|k: int| i <= k < i + 16 implies !#[trigger] stands(
        DetectedFormat::HealthApp,
        s,
        k,
    ) by {
        if here(DetectedFormat::HealthApp, s, k) {
            lemma_health_chars(s, k);
            assert(digit(s[k]) && digit(s[k + 1]) && digit(s[k + 2]) && digit(s[k + 3]) && digit(
                s[k + 4],
            ) && digit(s[k + 5]) && digit(s[k + 6]) && digit(s[k + 7]));
        }
    }
}

// ---------------------------------------------------------------------------
// A format in front of a timestamp of its own
// ---------------------------------------------------------------------------

pub(crate) proof fn lemma_epoch_before_epoch(s: Seq<char>, i: int, k: int)
    requires
        epoch_here(s, i),
        0 <= k < i,
    ensures
        ends_before(DetectedFormat::Epoch, s, k, i),
{
    reveal(stands);
    lemma_epoch_chars(s, i);
    if epoch_here(s, k) {
        lemma_digits_end_within(s, k, i - 1);
    }
}

pub(crate) proof fn lemma_health_before_health(s: Seq<char>, i: int, k: int)
    requires
        here(DetectedFormat::HealthApp, s, i),
        0 <= k < i,
    ensures
        ends_before(DetectedFormat::HealthApp, s, k, i),
{
    reveal(stands);
    lemma_health_chars(s, i);
    assert(digit(s[i]) && digit(s[i + 1]) && digit(s[i + 2]) && digit(s[i + 3]));
    if here(DetectedFormat::HealthApp, s, k) && i < k + 21 {
        lemma_health_chars(s, k);
        assert(s[k + 20] == s[k + 20] && digit(s[k + 20]));
        assert(!digit(s[i - 1]));
    }
}

pub(crate) proof fn lemma_android_before_android(s: Seq<char>, i: int, k: int)
    requires
        here(DetectedFormat::Android, s, i),
        0 <= k < i,
    ensures
        ends_before(DetectedFormat::Android, s, k, i),
{
    reveal(stands);
    lemma_android_chars(s, i);
    assert(digit(s[i]) && digit(s[i + 1]));
    if here(DetectedFormat::Android, s, k) && i < k + 18 {
        lemma_android_chars(s, k);
        assert(digit(s[k + 17]));
        assert(!digit(s[i - 1]));
    }
}

// ---------------------------------------------------------------------------
// Common log timestamps: digits may go on into them
// ---------------------------------------------------------------------------

/// The texts are alike up to `i`, where both go on with the two digits of a day
/// of the month and a slash.
pub open spec fn days_at(s: Seq<char>, b: Seq<char>, i: int) -> bool {
    &&& 0 <= i
    &&& i + 2 < s.len()
    &&& i + 2 < b.len()
    &&& forall|k: int| 0 <= k < i ==> #[trigger] s[k] == b[k]
    &&& number(s, i, i + 2) matches Some(d) && d <= 31
    &&& number(b, i, i + 2) matches Some(d) && d <= 31
    &&& s[i + 2] == '/'
    &&& b[i + 2] == '/'
}

pub(crate) proof fn lemma_two_digit_number(s: Seq<char>, a: int)
    requires
        0 <= a,
        a + 2 <= s.len(),
    ensures
        number(s, a, a + 2) == (if ascii_digit(s[a]) && ascii_digit(s[a + 1]) {
            Some(digit_value(s[a]) * 10 + digit_value(s[a + 1]))
        } else {
            None
        }),
{
    let t = s.subrange(a, a + 2);
    assert(t[0] == s[a] && t[1] == s[a + 1]);
    reveal_with_fuel(digits_value, 3);
    assert(t.drop_last().drop_last() =~= Seq::empty());
    assert(t.drop_last().last() == s[a]);
    if ascii_digit(s[a]) && ascii_digit(s[a + 1]) {
        assert(all_digits(t));
    } else {
        assert(!all_digits(t)) by {
            if all_digits(t) {
                assert(ascii_digit(t[0]) && ascii_digit(t[1]));
            }
        }
    }
}

/// The two digits at `a` stand for a number below sixty.
pub open spec fn below_sixty(s: Seq<char>, a: int) -> bool {
    number(s, a, a + 2) matches Some(v) && 0 <= v < 60
}

proof fn lemma_sixty(s: Seq<char>, b: Seq<char>, i: int, a: int)
    requires
        days_at(s, b, i),
        0 <= a <= i,
    ensures
        below_sixty(s, a) == below_sixty(b, a),
        a + 2 <= i ==> number(s, a, a + 2) == number(b, a, a + 2),
{
    lemma_two_digit_number(s, i);
    lemma_two_digit_number(b, i);
    lemma_two_digit_number(s, a);
    lemma_two_digit_number(b, a);
    if a < i {
        assert(s[a] == b[a]);
    }
    if a + 1 < i {
        assert(s[a + 1] == b[a + 1]);
    }
}

proof fn lemma_run_into_day(s: Seq<char>, b: Seq<char>, i: int, p: int, max: int)
    requires
        days_at(s, b, i),
        0 <= p <= i + 2,
    ensures
        digit_run(s, p, max) == digit_run(b, p, max),
        p + digit_run(s, p, max) <= i + 2,
    decreases max,
{
    lemma_two_digit_number(s, i);
    lemma_two_digit_number(b, i);
    if p < i {
        assert(s[p] == b[p]);
    }
    if 0 < max && p < i + 2 && digit(s[p]) {
        lemma_run_into_day(s, b, i, p + 1, max - 1);
    }
}

proof fn lemma_sign_into_day(s: Seq<char>, b: Seq<char>, i: int, u: int, shape: Seq<char>)
    requires
        days_at(s, b, i),
        0 <= u < i,
        shape == "sdd:dd"@ || shape == "sdddd"@ || shape == "sdd"@,
        fits(s, u, shape),
    ensures
        fits(b, u, shape),
        u + shape.len() <= i + 2,
{
    reveal_strlit("sdd:dd");
    reveal_strlit("sdddd");
    reveal_strlit("sdd");
    lemma_two_digit_number(s, i);
    lemma_two_digit_number(b, i);
    if i + 2 < u + shape.len() {
        assert(fits_mark(shape[i + 2 - u], s[u + (i + 2 - u)]));
    }
    assert forall|k: int| 0 <= k < shape.len() implies fits_mark(
        #[trigger] shape[k],
        b[u + k],
    ) by {
        assert(fits_mark(shape[k], s[u + k]));
        if u + k < i {
            assert(s[u + k] == b[u + k]);
        }
    }
}

proof fn lemma_days_back(s: Seq<char>, b: Seq<char>, i: int)
    requires
        days_at(s, b, i),
    ensures
        days_at(b, s, i),
{
    assert forall|k: int| 0 <= k < i implies #[trigger] b[k] == s[k] by {
        assert(s[k] == b[k]);
    }
}

proof fn lemma_sign_about_day(s: Seq<char>, b: Seq<char>, i: int, u: int, shape: Seq<char>)
    requires
        days_at(s, b, i),
        0 <= u < i,
        shape == "sdd:dd"@ || shape == "sdddd"@ || shape == "sdd"@,
    ensures
        fits(s, u, shape) == fits(b, u, shape),
        fits(s, u, shape) ==> u + shape.len() <= i + 2,
{
    if fits(s, u, shape) {
        lemma_sign_into_day(s, b, i, u, shape);
    }
    if fits(b, u, shape) {
        lemma_days_back(s, b, i);
        lemma_sign_into_day(b, s, i, u, shape);
    }
}

/// No zone begins with a digit or a slash.
proof fn lemma_no_zone(s: Seq<char>, u: int)
    requires
        0 <= u < s.len(),
        ascii_digit(s[u]) || s[u] == '/',
    ensures
        zone_len(s, u) == 0,
        zone_at(s, u) is None,
        fraction_end(s, u) == u,
{
    reveal_strlit("sdd:dd");
    reveal_strlit("sdddd");
    reveal_strlit("sdd");
    if fits(s, u, "sdd:dd"@) {
        assert(fits_mark("sdd:dd"@[0], s[u + 0]));
    }
    if fits(s, u, "sdddd"@) {
        assert(fits_mark("sdddd"@[0], s[u + 0]));
    }
    if fits(s, u, "sdd"@) {
        assert(fits_mark("sdd"@[0], s[u + 0]));
    }
}

proof fn lemma_zone_into_day(s: Seq<char>, b: Seq<char>, i: int, u: int)
    requires
        days_at(s, b, i),
        0 <= u <= i + 2,
    ensures
        zone_len(s, u) == zone_len(b, u),
        zone_at(s, u) is None == zone_at(b, u) is None,
{
    lemma_two_digit_number(s, i);
    lemma_two_digit_number(b, i);
    if u >= i {
        lemma_no_zone(s, u);
        lemma_no_zone(b, u);
    } else {
        assert(s[u] == b[u]);
        lemma_sign_about_day(s, b, i, u, "sdd:dd"@);
        lemma_sign_about_day(s, b, i, u, "sdddd"@);
        lemma_sign_about_day(s, b, i, u, "sdd"@);
        reveal_strlit("sdd:dd");
        reveal_strlit("sdddd");
        let n = zone_len(s, u);
        if n == 5 || n == 6 {
            lemma_sixty(s, b, i, u + 1);
            lemma_sixty(s, b, i, u + n - 2);
            lemma_two_digit_number(s, u + 1);
            lemma_two_digit_number(s, u + n - 2);
            lemma_two_digit_number(b, u + 1);
            lemma_two_digit_number(b, u + n - 2);
        }
    }
}

proof fn lemma_tail_into_day(s: Seq<char>, b: Seq<char>, i: int, p: int)
    requires
        days_at(s, b, i),
        0 <= p <= i + 2,
    ensures
        same_tail(s, p, b, p),
{
    lemma_two_digit_number(s, i);
    lemma_two_digit_number(b, i);
    if p < i {
        assert(s[p] == b[p]);
        lemma_run_into_day(s, b, i, p + 1, 9);
        lemma_digit_run_stops(s, p + 1, 9);
    } else {
        lemma_no_zone(s, p);
        lemma_no_zone(b, p);
    }
    lemma_zone_into_day(s, b, i, fraction_end(s, p));
}

proof fn lemma_iso_into_day(s: Seq<char>, b: Seq<char>, i: int, k: int)
    requires
        days_at(s, b, i),
        0 <= k < i,
        iso_here(s, k),
    ensures
        iso_here(b, k),
        iso_reading(s, k) is None == iso_reading(b, k) is None,
{
    let shape = "dddd-dd-ddtdd:dd:dd"@;
    reveal_strlit("dddd-dd-ddtdd:dd:dd");
    lemma_iso_chars(s, k);
    lemma_two_digit_number(s, i);
    lemma_two_digit_number(b, i);
    assert(k + 19 <= i + 2);
    assert forall|j: int| 0 <= j < shape.len() implies fits_mark(#[trigger] shape[j], b[k + j]) by {
        assert(fits_mark(shape[j], s[k + j]));
        if k + j < i {
            assert(s[k + j] == b[k + j]);
        }
    }
    if k > 0 {
        assert(s[k - 1] == b[k - 1]);
    }
    assert(s[k] == b[k]);
    assert(same_part(s, k, b, k, 17)) by {
        assert forall|p: int| k <= p < k + 17 implies #[trigger] s[p] == b[p - k + k] by {
            assert(s[p] == b[p]);
        }
    }
    lemma_same_part_text(s, k, b, k, 17, 0, 4);
    lemma_same_part_text(s, k, b, k, 17, 5, 7);
    lemma_same_part_text(s, k, b, k, 17, 8, 10);
    lemma_same_part_text(s, k, b, k, 17, 11, 13);
    lemma_same_part_text(s, k, b, k, 17, 14, 16);
    lemma_sixty(s, b, i, k + 17);
    lemma_two_digit_number(s, k + 17);
    lemma_two_digit_number(b, k + 17);
    lemma_tail_into_day(s, b, i, k + 19);
}

pub(crate) proof fn lemma_iso_kept_before_day(s: Seq<char>, b: Seq<char>, i: int)
    requires
        days_at(s, b, i),
    ensures
        kept_before(DetectedFormat::Iso, s, b, i),
{
    reveal(stands);
    reveal(is_void);
    assert forall|k: int| 0 <= k < i implies #[trigger] as_there(
        DetectedFormat::Iso,
        s,
        k,
        b,
        k,
    ) by {
        if iso_here(s, k) {
            lemma_iso_into_day(s, b, i, k);
        }
        if iso_here(b, k) {
            lemma_days_back(s, b, i);
            lemma_iso_into_day(b, s, i, k);
        }
    }
}

/// No common log timestamp stands in front of the first one.
pub(crate) proof fn lemma_clf_clear_before(s: Seq<char>, b: Seq<char>, i: int)
    requires
        days_at(s, b, i),
        clear(DetectedFormat::ApacheClf, s, 0, i),
        fits(b, i, "dd/www/dddd:dd:dd:dd sdddd"@),
    ensures
        clear(DetectedFormat::ApacheClf, b, 0, i),
{
    let f = DetectedFormat::ApacheClf;
    let shape = "dd/www/dddd:dd:dd:dd sdddd"@;
    lemma_clf_chars(b, i);
    lemma_two_digit_number(s, i);
    lemma_two_digit_number(b, i);
    assert(same_before(b, s, i)) by {
        assert forall|k: int| 0 <= k < i implies #[trigger] b[k] == s[k] by {
            assert(s[k] == b[k]);
        }
    }
    assert forall|k: int| 0 <= k < i implies !#[trigger] stands(f, b, k) by {
        assert(!stands(f, s, k));
        if stands(f, b, k) {
            assert(clf_here(b, k)) by {
                reveal(stands);
            }
            lemma_clf_chars(b, k);
            if k + 26 <= i {
                lemma_stands_before(f, b, s, i, k);
            } else {
                assert(k + 26 <= i + 2);
                assert(k + 26 == i + 2);
                reveal_strlit("dd/www/dddd:dd:dd:dd sdddd");
                assert forall|j: int| 0 <= j < shape.len() implies fits_mark(
                    #[trigger] shape[j],
                    s[k + j],
                ) by {
                    assert(fits_mark(shape[j], b[k + j]));
                    if k + j < i {
                        assert(s[k + j] == b[k + j]);
                    }
                }
                assert(clf_here(s, k));
                reveal(stands);
            }
        }
    }
}

} // verus!
