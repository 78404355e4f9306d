//! Places where a timestamp stands in two texts: what is looked at there is the
//! same, or the texts differ only elsewhere.

use vstd::prelude::*;

use crate::classes::{fits, fits_mark, word_at};
use crate::detectors::{
    android_here, android_reading, clf_here, clf_reading, ctf_here, ctf_reading, date_time, day_end,
    day_start, digit_run, digits_end, epoch_here, first_from, found, fraction_end, health_here,
    health_reading, here, iso_here, iso_reading, month_of, proxifier_here, proxifier_reading,
    reading, syslog_here, syslog_reading, token_start, zone_at, zone_len,
};
use crate::formats::DetectedFormat;
use crate::roundtrip::{
    lemma_digit_run_stops, lemma_digits_end, lemma_first_is_first, lemma_first_reached,
    lemma_same_rest_digit_run, lemma_same_rest_fits, same_rest,
};
use crate::text::{ascii_digit, number};

verus! {

// ---------------------------------------------------------------------------
// Parts that two texts share
// ---------------------------------------------------------------------------

/// The `n` characters of `x` from `a` on are those of `y` from `b` on.
pub open spec fn same_part(x: Seq<char>, a: int, y: Seq<char>, b: int, n: int) -> bool {
    &&& 0 <= a && a + n <= x.len()
    &&& 0 <= b && b + n <= y.len()
    &&& forall|k: int| a <= k < a + n ==> #[trigger] x[k] == y[k - a + b]
}

pub(crate) proof fn lemma_same_part_fits(
    x: Seq<char>,
    a: int,
    y: Seq<char>,
    b: int,
    n: int,
    j: int,
    shape: Seq<char>,
)
    requires
        same_part(x, a, y, b, n),
        0 <= j,
        j + shape.len() <= n,
    ensures
        fits(x, a + j, shape) == fits(y, b + j, shape),
{
    assert forall|k: int| 0 <= k < shape.len() implies x[a + j + k] == #[trigger] y[b + j + k] by {
        assert(x[a + j + k] == y[a + j + k - a + b]);
    }
    if fits(x, a + j, shape) {
        assert forall|k: int| 0 <= k < shape.len() implies fits_mark(
            #[trigger] shape[k],
            y[b + j + k],
        ) by {
            assert(x[a + j + k] == y[b + j + k]);
        }
    }
    if fits(y, b + j, shape) {
        assert forall|k: int| 0 <= k < shape.len() implies fits_mark(
            #[trigger] shape[k],
            x[a + j + k],
        ) by {
            assert(x[a + j + k] == y[b + j + k]);
        }
    }
}

pub(crate) proof fn lemma_same_part_text(
    x: Seq<char>,
    a: int,
    y: Seq<char>,
    b: int,
    n: int,
    u: int,
    v: int,
)
    requires
        same_part(x, a, y, b, n),
        0 <= u <= v <= n,
    ensures
        x.subrange(a + u, a + v) == y.subrange(b + u, b + v),
        number(x, a + u, a + v) == number(y, b + u, b + v),
{
    let p = x.subrange(a + u, a + v);
    let q = y.subrange(b + u, b + v);
    assert forall|k: int| 0 <= k < v - u implies p[k] == q[k] by {
        assert(x[a + u + k] == y[a + u + k - a + b]);
    }
    assert(p =~= q);
}

/// Two texts share their parts before `i`, and what stands from `e` on in the
/// one stands from `g` on in the other.
pub open spec fn rewritten_between(s: Seq<char>, e: int, b: Seq<char>, g: int, i: int) -> bool {
    &&& 0 <= i <= e
    &&& i <= g
    &&& same_rest(s, e, b, g)
    &&& forall|k: int| 0 <= k < i ==> #[trigger] s[k] == b[k]
}

// ---------------------------------------------------------------------------
// A timestamp that stands in one text stands in the other
// ---------------------------------------------------------------------------

/// The length of the timestamp at `k`, without the fraction and the zone of
/// ISO.
pub open spec fn body_len(f: DetectedFormat, s: Seq<char>, k: int) -> int {
    match f {
        DetectedFormat::Iso => 19,
        DetectedFormat::ApacheCtf => day_end(s, k + 9) + 15 - k,
        DetectedFormat::ApacheClf => 26,
        DetectedFormat::Epoch => digits_end(s, k) - k,
        DetectedFormat::SyslogNoYear => day_end(s, 4) + 9,
        DetectedFormat::HealthApp => 21,
        DetectedFormat::Android => 18,
        DetectedFormat::Proxifier => 16,
    }
}

/// The same character stands at `p` and at `q`, or both texts end there.
pub open spec fn same_next(s: Seq<char>, p: int, b: Seq<char>, q: int) -> bool {
    &&& p == s.len() <==> q == b.len()
    &&& p < s.len() ==> s[p] == b[q]
}

/// A fraction and a zone of the same lengths stand at `p` and at `q`, and the
/// zones are both offsets or both not.
pub open spec fn same_tail(s: Seq<char>, p: int, b: Seq<char>, q: int) -> bool {
    let u = fraction_end(s, p);
    let v = fraction_end(b, q);
    &&& u - p == v - q
    &&& zone_len(s, u) == zone_len(b, v)
    &&& zone_at(s, u) is None == zone_at(b, v) is None
}

/// A timestamp of the format stands at `k`.
#[verifier::opaque]
pub open spec fn stands(f: DetectedFormat, s: Seq<char>, k: int) -> bool {
    here(f, s, k)
}

/// What stands at `k` names no date and time.
#[verifier::opaque]
pub open spec fn is_void(f: DetectedFormat, s: Seq<char>, k: int) -> bool {
    reading(f, s, k) is None
}

/// A timestamp of the format stands at `k` in the one text exactly where one
/// stands at `m` in the other, and then both name a date and time or both not.
pub open spec fn as_there(
    f: DetectedFormat,
    s: Seq<char>,
    k: int,
    b: Seq<char>,
    m: int,
) -> bool {
    &&& stands(f, s, k) == stands(f, b, m)
    &&& stands(f, s, k) ==> is_void(f, s, k) == is_void(f, b, m)
}

/// What is looked at around a timestamp at `k` is the same around `m`.
pub open spec fn same_view(
    f: DetectedFormat,
    s: Seq<char>,
    k: int,
    b: Seq<char>,
    m: int,
) -> bool {
    let n = body_len(f, s, k);
    &&& same_part(s, k, b, m, n)
    &&& word_at(s, k - 1) == word_at(b, m - 1)
    &&& f != DetectedFormat::Iso ==> word_at(s, k + n) == word_at(b, m + n)
    &&& f == DetectedFormat::Iso ==> same_tail(s, k + n, b, m + n)
    &&& f == DetectedFormat::Epoch ==> token_start(s, k) == token_start(b, m)
    &&& f == DetectedFormat::Epoch || f == DetectedFormat::SyslogNoYear ==> same_next(
        s,
        k + n,
        b,
        m + n,
    )
    &&& f == DetectedFormat::SyslogNoYear ==> k == m
}

/// The day of the month that is written at `p` is the one at `q`.
proof fn lemma_same_day(x: Seq<char>, a: int, y: Seq<char>, b: int, n: int, j: int)
    requires
        same_part(x, a, y, b, n),
        0 <= j,
        day_start(x, a + j) < day_end(x, a + j) < a + n,
    ensures
        day_start(y, b + j) - b == day_start(x, a + j) - a,
        day_end(y, b + j) - b == day_end(x, a + j) - a,
{
    let p = day_start(x, a + j);
    let q = p - a + b;
    assert(x[a + j] == y[a + j - a + b]);
    assert(day_start(y, b + j) == q);
    assert(x[p] == y[p - a + b]);
    assert(x[p + 1] == y[p + 1 - a + b]) by {
        if p + 1 < a + n {
        } else {
            lemma_digit_run_stops(x, p, 2);
        }
    }
    reveal_with_fuel(digit_run, 3);
}

proof fn lemma_iso_carries(s: Seq<char>, k: int, b: Seq<char>, m: int)
    requires
        iso_here(s, k),
        same_view(DetectedFormat::Iso, s, k, b, m),
    ensures
        iso_here(b, m),
        iso_reading(s, k) is None == iso_reading(b, m) is None,
{
    reveal_strlit("dddd-dd-ddtdd:dd:dd");
    lemma_same_part_fits(s, k, b, m, 19, 0, "dddd-dd-ddtdd:dd:dd"@);
    assert(s[k] == b[k - k + m]);
    lemma_same_part_text(s, k, b, m, 19, 0, 4);
    lemma_same_part_text(s, k, b, m, 19, 5, 7);
    lemma_same_part_text(s, k, b, m, 19, 8, 10);
    lemma_same_part_text(s, k, b, m, 19, 11, 13);
    lemma_same_part_text(s, k, b, m, 19, 14, 16);
    lemma_same_part_text(s, k, b, m, 19, 17, 19);
}

proof fn lemma_ctf_stands(s: Seq<char>, k: int, b: Seq<char>, m: int)
    requires
        ctf_here(s, k),
        same_view(DetectedFormat::ApacheCtf, s, k, b, m),
    ensures
        ctf_here(b, m),
        day_start(b, m + 9) - m == day_start(s, k + 9) - k,
        day_end(b, m + 9) - m == day_end(s, k + 9) - k,
        k + 9 <= day_start(s, k + 9) < day_end(s, k + 9),
{
    let n = body_len(DetectedFormat::ApacheCtf, s, k);
    let e = day_end(s, k + 9);
    assert("[www www "@.len() == 9 && " dd:dd:dd dddd]"@.len() == 15) by {
        reveal_strlit("[www www ");
        reveal_strlit(" dd:dd:dd dddd]");
    }
    lemma_digit_run_stops(s, day_start(s, k + 9), 2);
    lemma_same_day(s, k, b, m, n, 9);
    lemma_same_part_fits(s, k, b, m, n, 0, "[www www "@);
    lemma_same_part_fits(s, k, b, m, n, e - k, " dd:dd:dd dddd]"@);
}

proof fn lemma_ctf_says(s: Seq<char>, k: int, b: Seq<char>, m: int)
    requires
        k + 9 <= day_start(s, k + 9) < day_end(s, k + 9),
        day_start(b, m + 9) - m == day_start(s, k + 9) - k,
        day_end(b, m + 9) - m == day_end(s, k + 9) - k,
        same_part(s, k, b, m, day_end(s, k + 9) + 15 - k),
    ensures
        ctf_reading(s, k) is None == ctf_reading(b, m) is None,
{
    let d = day_start(s, k + 9) - k;
    let e = day_end(s, k + 9) - k;
    let n = e + 15;
    lemma_same_part_text(s, k, b, m, n, e + 10, e + 14);
    lemma_same_part_text(s, k, b, m, n, 5, 8);
    lemma_same_part_text(s, k, b, m, n, d, e);
    lemma_same_part_text(s, k, b, m, n, e + 1, e + 3);
    lemma_same_part_text(s, k, b, m, n, e + 4, e + 6);
    lemma_same_part_text(s, k, b, m, n, e + 7, e + 9);
    assert(date_time(
        number(s, k + (e + 10), k + (e + 14)),
        month_of(s.subrange(k + 5, k + 8)),
        number(s, k + d, k + e),
        number(s, k + (e + 1), k + (e + 3)),
        number(s, k + (e + 4), k + (e + 6)),
        number(s, k + (e + 7), k + (e + 9)),
    ) == date_time(
        number(b, m + (e + 10), m + (e + 14)),
        month_of(b.subrange(m + 5, m + 8)),
        number(b, m + d, m + e),
        number(b, m + (e + 1), m + (e + 3)),
        number(b, m + (e + 4), m + (e + 6)),
        number(b, m + (e + 7), m + (e + 9)),
    ));
}

proof fn lemma_ctf_carries(s: Seq<char>, k: int, b: Seq<char>, m: int)
    requires
        ctf_here(s, k),
        same_view(DetectedFormat::ApacheCtf, s, k, b, m),
    ensures
        ctf_here(b, m),
        ctf_reading(s, k) is None == ctf_reading(b, m) is None,
{
    lemma_ctf_stands(s, k, b, m);
    lemma_ctf_says(s, k, b, m);
}

proof fn lemma_clf_carries(s: Seq<char>, k: int, b: Seq<char>, m: int)
    requires
        clf_here(s, k),
        same_view(DetectedFormat::ApacheClf, s, k, b, m),
    ensures
        clf_here(b, m),
        clf_reading(s, k) is None == clf_reading(b, m) is None,
{
    reveal_strlit("dd/www/dddd:dd:dd:dd sdddd");
    lemma_same_part_fits(s, k, b, m, 26, 0, "dd/www/dddd:dd:dd:dd sdddd"@);
    assert(s[k + 25] == b[k + 25 - k + m]);
    assert(s[k + 21] == b[k + 21 - k + m]);
    lemma_same_part_text(s, k, b, m, 26, 7, 11);
    lemma_same_part_text(s, k, b, m, 26, 3, 6);
    lemma_same_part_text(s, k, b, m, 26, 0, 2);
    lemma_same_part_text(s, k, b, m, 26, 12, 14);
    lemma_same_part_text(s, k, b, m, 26, 15, 17);
    lemma_same_part_text(s, k, b, m, 26, 18, 20);
    lemma_same_part_text(s, k, b, m, 26, 22, 24);
    lemma_same_part_text(s, k, b, m, 26, 24, 26);
}

/// The digits from `k` on end at the first character that is none.
pub(crate) proof fn lemma_digits_stop(s: Seq<char>, k: int)
    requires
        0 <= k <= s.len(),
    ensures
        k <= digits_end(s, k) <= s.len(),
        forall|p: int| k <= p < digits_end(s, k) ==> ascii_digit(#[trigger] s[p]),
        digits_end(s, k) < s.len() ==> !ascii_digit(s[digits_end(s, k)]),
    decreases s.len() - k,
{
    if k < s.len() && ascii_digit(s[k]) {
        lemma_digits_stop(s, k + 1);
    }
}

proof fn lemma_epoch_carries(s: Seq<char>, k: int, b: Seq<char>, m: int)
    requires
        epoch_here(s, k),
        same_view(DetectedFormat::Epoch, s, k, b, m),
    ensures
        epoch_here(b, m),
{
    let n = body_len(DetectedFormat::Epoch, s, k);
    lemma_digits_stop(s, k);
    assert forall|p: int| m <= p < m + n implies ascii_digit(#[trigger] b[p]) by {
        assert(s[p - m + k] == b[p - m + k - k + m]);
    }
    lemma_digits_end(b, m, m + n);
    lemma_same_part_text(s, k, b, m, n, 0, n);
}

proof fn lemma_syslog_carries(s: Seq<char>, b: Seq<char>)
    requires
        syslog_here(s, 0),
        same_view(DetectedFormat::SyslogNoYear, s, 0, b, 0),
    ensures
        syslog_here(b, 0),
        syslog_reading(s, 0) is None == syslog_reading(b, 0) is None,
{
    let f = DetectedFormat::SyslogNoYear;
    let n = body_len(f, s, 0);
    let e = day_end(s, 4);
    reveal_strlit("aaa ");
    reveal_strlit(" dd:dd:dd");
    lemma_digit_run_stops(s, day_start(s, 4), 2);
    lemma_same_day(s, 0, b, 0, n, 4);
    lemma_same_part_fits(s, 0, b, 0, n, 0, "aaa "@);
    lemma_same_part_fits(s, 0, b, 0, n, e, " dd:dd:dd"@);
    lemma_same_part_text(s, 0, b, 0, n, 0, 3);
    lemma_same_part_text(s, 0, b, 0, n, day_start(s, 4), e);
    lemma_same_part_text(s, 0, b, 0, n, e + 1, e + 3);
    lemma_same_part_text(s, 0, b, 0, n, e + 4, e + 6);
    lemma_same_part_text(s, 0, b, 0, n, e + 7, e + 9);
}

proof fn lemma_health_carries(s: Seq<char>, k: int, b: Seq<char>, m: int)
    requires
        health_here(s, k),
        same_view(DetectedFormat::HealthApp, s, k, b, m),
    ensures
        health_here(b, m),
        health_reading(s, k) is None == health_reading(b, m) is None,
{
    reveal_strlit("dddddddd-dd:dd:dd:ddd");
    lemma_same_part_fits(s, k, b, m, 21, 0, "dddddddd-dd:dd:dd:ddd"@);
    assert(s[k] == b[k - k + m]);
    assert(s[k + 20] == b[k + 20 - k + m]);
    lemma_same_part_text(s, k, b, m, 21, 0, 4);
    lemma_same_part_text(s, k, b, m, 21, 4, 6);
    lemma_same_part_text(s, k, b, m, 21, 6, 8);
    lemma_same_part_text(s, k, b, m, 21, 9, 11);
    lemma_same_part_text(s, k, b, m, 21, 12, 14);
    lemma_same_part_text(s, k, b, m, 21, 15, 17);
    lemma_same_part_text(s, k, b, m, 21, 18, 21);
}

proof fn lemma_android_carries(s: Seq<char>, k: int, b: Seq<char>, m: int)
    requires
        android_here(s, k),
        same_view(DetectedFormat::Android, s, k, b, m),
    ensures
        android_here(b, m),
        android_reading(s, k) is None == android_reading(b, m) is None,
{
    reveal_strlit("dd-dd dd:dd:dd.ddd");
    lemma_same_part_fits(s, k, b, m, 18, 0, "dd-dd dd:dd:dd.ddd"@);
    assert(s[k] == b[k - k + m]);
    assert(s[k + 17] == b[k + 17 - k + m]);
    lemma_same_part_text(s, k, b, m, 18, 0, 2);
    lemma_same_part_text(s, k, b, m, 18, 3, 5);
    lemma_same_part_text(s, k, b, m, 18, 6, 8);
    lemma_same_part_text(s, k, b, m, 18, 9, 11);
    lemma_same_part_text(s, k, b, m, 18, 12, 14);
    lemma_same_part_text(s, k, b, m, 18, 15, 18);
}

proof fn lemma_proxifier_carries(s: Seq<char>, k: int, b: Seq<char>, m: int)
    requires
        proxifier_here(s, k),
        same_view(DetectedFormat::Proxifier, s, k, b, m),
    ensures
        proxifier_here(b, m),
        proxifier_reading(s, k) is None == proxifier_reading(b, m) is None,
{
    reveal_strlit("[dd.dd dd:dd:dd]");
    lemma_same_part_fits(s, k, b, m, 16, 0, "[dd.dd dd:dd:dd]"@);
    lemma_same_part_text(s, k, b, m, 16, 1, 3);
    lemma_same_part_text(s, k, b, m, 16, 4, 6);
    lemma_same_part_text(s, k, b, m, 16, 7, 9);
    lemma_same_part_text(s, k, b, m, 16, 10, 12);
    lemma_same_part_text(s, k, b, m, 16, 13, 15);
}

/// A timestamp stands wherever everything that is looked at is the same.
proof fn lemma_carries(f: DetectedFormat, s: Seq<char>, k: int, b: Seq<char>, m: int)
    requires
        stands(f, s, k),
        same_view(f, s, k, b, m),
    ensures
        stands(f, b, m),
        as_there(f, s, k, b, m),
{
    reveal(stands);
    reveal(is_void);
    match f {
        DetectedFormat::Iso => lemma_iso_carries(s, k, b, m),
        DetectedFormat::ApacheCtf => lemma_ctf_carries(s, k, b, m),
        DetectedFormat::ApacheClf => lemma_clf_carries(s, k, b, m),
        DetectedFormat::Epoch => lemma_epoch_carries(s, k, b, m),
        DetectedFormat::SyslogNoYear => lemma_syslog_carries(s, b),
        DetectedFormat::HealthApp => lemma_health_carries(s, k, b, m),
        DetectedFormat::Android => lemma_android_carries(s, k, b, m),
        DetectedFormat::Proxifier => lemma_proxifier_carries(s, k, b, m),
    }
}

proof fn lemma_body_bound(f: DetectedFormat, s: Seq<char>, k: int)
    requires
        stands(f, s, k),
    ensures
        0 <= k,
        0 < body_len(f, s, k),
        k + body_len(f, s, k) <= s.len(),
{
    reveal(stands);
    reveal_strlit("dddd-dd-ddtdd:dd:dd");
    reveal_strlit("[www www ");
    reveal_strlit(" dd:dd:dd dddd]");
    reveal_strlit("dd/www/dddd:dd:dd:dd sdddd");
    reveal_strlit("aaa ");
    reveal_strlit(" dd:dd:dd");
    reveal_strlit("dddddddd-dd:dd:dd:ddd");
    reveal_strlit("[dd.dd dd:dd:dd]");
    reveal_strlit("dd-dd dd:dd:dd.ddd");
    match f {
        DetectedFormat::ApacheCtf => {
            lemma_digit_run_stops(s, day_start(s, k + 9), 2);
        },
        DetectedFormat::SyslogNoYear => {
            lemma_digit_run_stops(s, day_start(s, 4), 2);
        },
        DetectedFormat::Epoch => {
            lemma_digits_stop(s, k);
        },
        _ => {},
    }
}

// ---------------------------------------------------------------------------
// Behind the rewritten part
// ---------------------------------------------------------------------------

pub(crate) proof fn lemma_rest_from(s: Seq<char>, e: int, b: Seq<char>, g: int, k: int)
    requires
        same_rest(s, e, b, g),
        e <= k <= s.len(),
    ensures
        same_rest(s, k, b, k - e + g),
{
    assert forall|p: int| k <= p < s.len() implies #[trigger] s[p] == b[p - k + (k - e + g)] by {
        assert(s[p] == b[p - e + g]);
    }
}

proof fn lemma_rest_back(s: Seq<char>, e: int, b: Seq<char>, g: int)
    requires
        same_rest(s, e, b, g),
    ensures
        same_rest(b, g, s, e),
{
    assert forall|p: int| g <= p < b.len() implies #[trigger] b[p] == s[p - g + e] by {
        assert(s[p - g + e] == b[p - g + e - e + g]);
    }
}

proof fn lemma_zone_same_rest(s: Seq<char>, p: int, b: Seq<char>, q: int)
    requires
        same_rest(s, p, b, q),
    ensures
        zone_len(s, p) == zone_len(b, q),
        zone_at(s, p) is None == zone_at(b, q) is None,
{
    reveal_strlit("sdd:dd");
    reveal_strlit("sdddd");
    lemma_same_rest_fits(s, p, b, q, "sdd:dd"@);
    lemma_same_rest_fits(s, p, b, q, "sdddd"@);
    lemma_same_rest_fits(s, p, b, q, "sdd"@);
    if p < s.len() {
        assert(s[p] == b[p - p + q]);
    }
    let n = zone_len(s, p);
    if n == 5 || n == 6 {
        assert(same_part(s, p, b, q, n));
        lemma_same_part_text(s, p, b, q, n, 1, 3);
        lemma_same_part_text(s, p, b, q, n, n - 2, n);
    }
}

proof fn lemma_tail_same_rest(s: Seq<char>, p: int, b: Seq<char>, q: int)
    requires
        same_rest(s, p, b, q),
    ensures
        same_tail(s, p, b, q),
{
    if p < s.len() {
        assert(s[p] == b[p - p + q]);
        lemma_rest_from(s, p, b, q, p + 1);
        lemma_same_rest_digit_run(s, p + 1, b, q + 1, 9);
        lemma_digit_run_stops(s, p + 1, 9);
    }
    let u = fraction_end(s, p);
    lemma_rest_from(s, p, b, q, u);
    lemma_zone_same_rest(s, u, b, u - p + q);
}

/// The texts go on alike from `e` and `g` on, and what is looked at in front of
/// there is alike too.
pub open spec fn same_after(s: Seq<char>, e: int, b: Seq<char>, g: int) -> bool {
    &&& 0 < e && 0 < g
    &&& same_rest(s, e, b, g)
    &&& word_at(s, e - 1) == word_at(b, g - 1)
    &&& token_start(s, e) == token_start(b, g)
}

proof fn lemma_stands_after(f: DetectedFormat, s: Seq<char>, e: int, b: Seq<char>, g: int, k: int)
    requires
        same_after(s, e, b, g),
        e <= k,
        stands(f, s, k),
    ensures
        stands(f, b, k - e + g),
        as_there(f, s, k, b, k - e + g),
{
    let m = k - e + g;
    let n = body_len(f, s, k);
    lemma_body_bound(f, s, k);
    assert(f != DetectedFormat::SyslogNoYear) by {
        reveal(stands);
    }
    lemma_rest_from(s, e, b, g, k);
    lemma_rest_from(s, e, b, g, k + n);
    assert(same_part(s, k, b, m, n));
    if k > e {
        assert(s[k - 1] == b[k - 1 - e + g]);
    }
    if k + n < s.len() {
        assert(s[k + n] == b[k + n - e + g]);
    }
    if f == DetectedFormat::Iso {
        lemma_tail_same_rest(s, k + n, b, m + n);
    }
    lemma_carries(f, s, k, b, m);
}

/// Behind the rewritten part, each timestamp stands where it stood.
proof fn lemma_as_after(f: DetectedFormat, s: Seq<char>, e: int, b: Seq<char>, g: int, k: int)
    requires
        same_after(s, e, b, g),
        e <= k,
    ensures
        as_there(f, s, k, b, k - e + g),
{
    if stands(f, s, k) {
        lemma_stands_after(f, s, e, b, g, k);
    }
    if stands(f, b, k - e + g) {
        lemma_rest_back(s, e, b, g);
        lemma_stands_after(f, b, g, s, e, k - e + g);
    }
}

// ---------------------------------------------------------------------------
// In front of the rewritten part
// ---------------------------------------------------------------------------

/// A timestamp at `k` ends before `i`; one whose next character counts ends
/// before the character in front of `i`.
pub open spec fn ends_before(f: DetectedFormat, s: Seq<char>, k: int, i: int) -> bool {
    stands(f, s, k) ==> if f == DetectedFormat::Epoch || f == DetectedFormat::SyslogNoYear {
        k + body_len(f, s, k) < i
    } else {
        k + body_len(f, s, k) <= i
    }
}

/// The texts are alike up to `i`, and at `i` both go on with a word or both
/// not.
pub open spec fn same_before(s: Seq<char>, b: Seq<char>, i: int) -> bool {
    &&& 0 <= i <= s.len()
    &&& i <= b.len()
    &&& forall|k: int| 0 <= k < i ==> #[trigger] s[k] == b[k]
    &&& word_at(s, i) == word_at(b, i)
}

pub(crate) proof fn lemma_stands_before(f: DetectedFormat, s: Seq<char>, b: Seq<char>, i: int, k: int)
    requires
        same_before(s, b, i),
        stands(f, s, k),
        ends_before(f, s, k, i),
        f == DetectedFormat::Iso ==> same_tail(s, k + 19, b, k + 19),
    ensures
        stands(f, b, k),
        as_there(f, s, k, b, k),
{
    let n = body_len(f, s, k);
    lemma_body_bound(f, s, k);
    assert(same_part(s, k, b, k, n));
    if k > 0 {
        assert(s[k - 1] == b[k - 1]);
    }
    if k + n < i {
        assert(s[k + n] == b[k + n]);
    }
    lemma_carries(f, s, k, b, k);
}

/// In front of the rewritten part, each timestamp stands where it stood.
pub(crate) proof fn lemma_as_before(f: DetectedFormat, s: Seq<char>, b: Seq<char>, i: int, k: int)
    requires
        same_before(s, b, i),
        ends_before(f, s, k, i),
        ends_before(f, b, k, i),
        f == DetectedFormat::Iso && (stands(f, s, k) || stands(f, b, k)) ==> same_tail(
            s,
            k + 19,
            b,
            k + 19,
        ),
    ensures
        as_there(f, s, k, b, k),
{
    if stands(f, s, k) {
        lemma_stands_before(f, s, b, i, k);
    }
    if stands(f, b, k) {
        assert(same_before(b, s, i));
        lemma_stands_before(f, b, s, i, k);
    }
}

/// No timestamp of the format stands at a place from `i` up to `e`.
pub open spec fn clear(f: DetectedFormat, s: Seq<char>, i: int, e: int) -> bool {
    forall|k: int| i <= k < e ==> !#[trigger] stands(f, s, k)
}

/// Each timestamp of the format in front of `i` stands where it stood.
pub open spec fn kept_before(f: DetectedFormat, s: Seq<char>, b: Seq<char>, i: int) -> bool {
    forall|k: int| 0 <= k < i ==> #[trigger] as_there(f, s, k, b, k)
}

pub(crate) proof fn lemma_first_stands(f: DetectedFormat, s: Seq<char>)
    ensures
        match first_from(f, s, 0) {
            Some(i) => 0 <= i <= s.len() && stands(f, s, i) && clear(f, s, 0, i) && (found(
                f,
                s,
            ) is None <==> is_void(f, s, i)),
            None => found(f, s) is None,
        },
{
    reveal(stands);
    reveal(is_void);
    if let Some(i) = first_from(f, s, 0) {
        lemma_first_is_first(f, s, 0, i);
    }
}

proof fn lemma_reached(f: DetectedFormat, s: Seq<char>, i: int)
    requires
        0 <= i <= s.len(),
        stands(f, s, i),
        clear(f, s, 0, i),
    ensures
        first_from(f, s, 0) == Some(i),
        found(f, s) is None <==> is_void(f, s, i),
{
    reveal(stands);
    reveal(is_void);
    assert forall|k: int| 0 <= k < i implies !#[trigger] here(f, s, k) by {
        assert(!stands(f, s, k));
    }
    lemma_first_reached(f, s, 0, i);
}

/// A detector that found nothing finds nothing in the rewritten text, when none
/// of its timestamps meets the rewritten part.
pub(crate) proof fn lemma_nothing_new(
    f: DetectedFormat,
    s: Seq<char>,
    e: int,
    b: Seq<char>,
    g: int,
    i: int,
)
    requires
        found(f, s) is None,
        0 <= i <= e,
        i <= g,
        kept_before(f, s, b, i),
        clear(f, s, i, e),
        clear(f, b, i, g),
        same_after(s, e, b, g),
    ensures
        found(f, b) is None,
{
    lemma_first_stands(f, b);
    if let Some(m) = first_from(f, b, 0) {
        let k = if m < i {
            m
        } else {
            m - g + e
        };
        if m < i {
            assert(as_there(f, s, m, b, m));
        } else {
            assert(m >= g);
            lemma_as_after(f, s, e, b, g, k);
        }
        assert(stands(f, s, k));
        assert forall|p: int| 0 <= p < k implies !#[trigger] stands(f, s, p) by {
            if p < i {
                assert(as_there(f, s, p, b, p));
                assert(!stands(f, b, p));
            } else if p >= e {
                lemma_as_after(f, s, e, b, g, p);
                assert(!stands(f, b, p - e + g));
            }
        }
        lemma_body_bound(f, s, k);
        lemma_reached(f, s, k);
    }
}

/// Where no timestamp of the format stood in front of the rewritten part, none
/// stands there now.
pub(crate) proof fn lemma_clear_before(f: DetectedFormat, s: Seq<char>, b: Seq<char>, i: int)
    requires
        clear(f, s, 0, i),
        same_before(s, b, i),
        f != DetectedFormat::Iso,
        forall|k: int| 0 <= k < i && #[trigger] stands(f, b, k) ==> ends_before(f, b, k, i),
    ensures
        clear(f, b, 0, i),
{
    assert forall|k: int| 0 <= k < i implies !#[trigger] stands(f, b, k) by {
        assert(!stands(f, s, k));
        if stands(f, b, k) {
            assert(same_before(b, s, i));
            lemma_stands_before(f, b, s, i, k);
        }
    }
}

/// A detector finds the first timestamp of its format.
pub(crate) proof fn lemma_found_first(f: DetectedFormat, b: Seq<char>, i: int)
    requires
        0 <= i <= b.len(),
        clear(f, b, 0, i),
        here(f, b, i),
    ensures
        found(f, b) == reading(f, b, i),
{
    assert(stands(f, b, i)) by {
        reveal(stands);
    }
    lemma_reached(f, b, i);
}

} // verus!
