//! Timestamp engine: detector chain, parsing, and format-preserving
//! transformation of the detected timestamp substring only.
//!
//! Detection is deliberately conservative. Numeric substitution is guarded
//! (standalone tokens of 9 to 13 digits only): replacing every 10-digit number
//! with a fresh epoch would corrupt IDs, durations, IP octets, and epoch-millis
//! embedded in metrics.

use vstd::prelude::*;
use vstd::utf8::encode_utf8;

use crate::classes::{fits, has_shape};
use crate::clock::{
    answers, local_offset_at, local_offset_now, valid_offset, whole_seconds, LocalOffset, UtcTime,
};
use crate::detectors::{
    count_digits, detector, digit_run, find_timestamp, first_from, found, here, scan, scan_from,
    Found, Reading,
};
pub use crate::formats::{Aux, DetectedFormat, Moment, Zone, ZoneStyle};
use crate::json::{
    entries, entries_view, field_of, find_key, has_key, json_double, json_entries, json_text,
    json_value, parse_json, set_field, with_field, write_object, Field, FieldView, Json, JsonView,
};
pub use crate::json::NewField;
use crate::moments::{lemma_reading_valid, place, settles, valid_moment};
use crate::render::{push_rendered, rendered};
use crate::roundtrip::replaced;
use crate::text::{
    byte_offset, bytes_before, chars_of, is_white_space, lemma_utf8_concat, push_range,
    signed_padded, string_of, white_space,
};

verus! {

broadcast use vstd::string::group_string_axioms;

/// A confidently detected and parsed timestamp within a raw line. The span is
/// given in bytes.
#[derive(Debug, Clone, Copy)]
pub struct TsMatch {
    pub start: usize,
    pub end: usize,
    pub ts: UtcTime,
    pub year_inferred: bool,
    pub format: DetectedFormat,
    pub aux: Aux,
}

/// `m` is the match of what was read in the line: the same span, format and
/// details, and an instant of the moment that it names.
pub open spec fn is_match(m: TsMatch, line: Seq<char>, r: Reading) -> bool {
    &&& m.start == byte_offset(line, r.start)
    &&& m.end == byte_offset(line, r.end)
    &&& m.format == r.format
    &&& m.aux == r.aux
    &&& m.year_inferred == (r.moment is Yearless)
    &&& settles(r.moment, m.ts@)
}

proof fn lemma_first_stands(f: DetectedFormat, s: Seq<char>, i: int)
    requires
        first_from(f, s, i) is Some,
    ensures
        here(f, s, first_from(f, s, i)->0),
    decreases s.len() + 1 - i,
{
    if i <= s.len() && !here(f, s, i) {
        lemma_first_stands(f, s, i + 1);
    }
}

proof fn lemma_scan_from_valid(s: Seq<char>, k: int)
    requires
        scan_from(s, k) is Some,
    ensures
        valid_moment(scan_from(s, k)->0.moment),
        0 <= scan_from(s, k)->0.start <= scan_from(s, k)->0.end <= s.len(),
    decreases 8 - k,
{
    if k < 8 {
        let f = detector(k);
        if found(f, s) is Some {
            lemma_first_stands(f, s, 0);
            lemma_reading_valid(f, s, first_from(f, s, 0)->0);
        } else {
            lemma_scan_from_valid(s, k + 1);
        }
    }
}

/// What is detected in a line lies in the line and names a moment that can be
/// placed.
pub proof fn lemma_scan_valid(s: Seq<char>)
    requires
        scan(s) is Some,
    ensures
        valid_moment(scan(s)->0.moment),
        0 <= scan(s)->0.start <= scan(s)->0.end <= s.len(),
{
    lemma_scan_from_valid(s, 0);
}

// ---------------------------------------------------------------------------
// Public API
// ---------------------------------------------------------------------------

/// First confident match wins; detectors run most-specific first.
pub fn detect(line: &str) -> (r: Option<TsMatch>)
    ensures
        match r {
            Some(m) => scan(line@) is Some && is_match(m, line@, scan(line@)->0),
            None => scan(line@) is None,
        },
{
    let cs = chars_of(line);
    let f = find_timestamp(&cs)?;
    proof {
        lemma_scan_valid(line@);
    }
    Some(
        TsMatch {
            start: bytes_before(line, &cs, f.start),
            end: bytes_before(line, &cs, f.end),
            ts: place(f.moment),
            year_inferred: matches!(f.moment, Moment::Yearless { .. }),
            format: f.format,
            aux: f.aux,
        },
    )
}

/// Parsed timestamp of a line (for `validate`): (ts, format, year_inferred).
pub fn parse(line: &str) -> (r: Option<(UtcTime, DetectedFormat, bool)>)
    ensures
        match r {
            Some((ts, format, inferred)) => {
                &&& scan(line@) is Some
                &&& format == scan(line@)->0.format
                &&& inferred == (scan(line@)->0.moment is Yearless)
                &&& settles(scan(line@)->0.moment, ts@)
            },
            None => scan(line@) is None,
        },
{
    let m = detect(line)?;
    Some((m.ts, m.format, m.year_inferred))
}

/// Result of a synthetic-today transformation.
pub struct Transformed {
    pub body: String,
    pub ts: UtcTime,
}

/// The second whose local offset a rendering of the instant `t` goes by. An ISO
/// timestamp goes by the offset of the moment when it is rendered (`None`), the
/// others by that of the instant itself.
pub open spec fn rendered_by_offset_of(f: DetectedFormat, t: int) -> Option<int> {
    match f {
        DetectedFormat::Iso => None,
        _ => Some(whole_seconds(t)),
    }
}

/// The offset of the local clock that a rendering in the format goes by.
fn local_offset(f: DetectedFormat, ts: &UtcTime) -> (r: LocalOffset)
    ensures
        answers(r, rendered_by_offset_of(f, ts@)),
{
    match f {
        DetectedFormat::Iso => local_offset_now(),
        _ => local_offset_at(ts.seconds()),
    }
}

/// An epoch of more than ten bytes is one of milliseconds.
pub open spec fn in_millis(m: TsMatch) -> bool {
    m.end - m.start > 10
}

/// `new_ts` in the format described by the match, where the local clock is
/// `off` seconds east of UTC.
pub fn render_at(m: &TsMatch, new_ts: UtcTime, off: i32) -> (r: String)
    requires
        valid_offset(off as int),
    ensures
        r@ == rendered(m.format, m.aux, in_millis(*m), new_ts@, off as int),
{
    let mut out = String::new();
    push_rendered(
        &mut out,
        m.format,
        m.aux,
        m.end > m.start && m.end - m.start > 10,
        new_ts,
        off,
    );
    assert(out@ =~= rendered(m.format, m.aux, in_millis(*m), new_ts@, off as int));
    out
}

/// Render `new_ts` in the original format described by match `m`, by the
/// machine's time zone.
pub fn render(m: &TsMatch, new_ts: UtcTime) -> (r: String)
    ensures
        exists|o: LocalOffset| #[trigger]
            answers(o, rendered_by_offset_of(m.format, new_ts@)) && r@ == rendered(
                m.format,
                m.aux,
                in_millis(*m),
                new_ts@,
                o.east_of_utc(),
            ),
{
    let o = local_offset(m.format, &new_ts);
    let r = render_at(m, new_ts, o.seconds());
    assert(answers(o, rendered_by_offset_of(m.format, new_ts@)));
    r
}

/// The line with the timestamp that is detected in it replaced by `t`, where
/// the local clock is `off` seconds east of UTC.
pub open spec fn transformed(line: Seq<char>, t: int, off: int) -> Seq<char> {
    let r = scan(line)->0;
    replaced(
        line,
        r.start,
        r.end,
        rendered(r.format, r.aux, r.end - r.start > 10, t, off),
    )
}

/// Transform `line` by replacing the confidently detected timestamp substring
/// with `new_ts` rendered in the same format, where the local clock is `off`
/// seconds east of UTC.
pub fn transform_at(line: &str, new_ts: UtcTime, off: i32) -> (r: Option<Transformed>)
    requires
        valid_offset(off as int),
    ensures
        match r {
            Some(x) => scan(line@) is Some && x.ts == new_ts && x.body@ == transformed(
                line@,
                new_ts@,
                off as int,
            ),
            None => scan(line@) is None,
        },
{
    let cs = chars_of(line);
    let f = find_timestamp(&cs)?;
    proof {
        lemma_scan_valid(line@);
    }
    Some(Transformed { body: retime(&cs, &f, new_ts, off), ts: new_ts })
}

fn retime(cs: &Vec<char>, f: &Found, new_ts: UtcTime, off: i32) -> (r: String)
    requires
        valid_offset(off as int),
        f.start <= f.end <= cs@.len(),
    ensures
        r@ == replaced(
            cs@,
            f.start as int,
            f.end as int,
            rendered(f.format, f.aux, f.end - f.start > 10, new_ts@, off as int),
        ),
{
    let mut body = String::new();
    push_range(&mut body, cs, 0, f.start);
    push_rendered(&mut body, f.format, f.aux, f.end - f.start > 10, new_ts, off);
    push_range(&mut body, cs, f.end, cs.len());
    assert(body@ =~= replaced(
        cs@,
        f.start as int,
        f.end as int,
        rendered(f.format, f.aux, f.end - f.start > 10, new_ts@, off as int),
    ));
    body
}

/// `body` is the line with the timestamp that is detected in it replaced by `t`,
/// by the machine's time zone; there is none when no timestamp is detected.
pub open spec fn is_transformed(line: Seq<char>, t: int, body: Option<Seq<char>>) -> bool {
    match body {
        Some(b) => scan(line) is Some && exists|o: LocalOffset| #[trigger]
            answers(o, rendered_by_offset_of(scan(line)->0.format, t)) && b == transformed(
                line,
                t,
                o.east_of_utc(),
            ),
        None => scan(line) is None,
    }
}

/// The body of what was transformed.
pub open spec fn body_view(r: Option<Transformed>) -> Option<Seq<char>> {
    match r {
        Some(x) => Some(x.body@),
        None => None,
    }
}

/// Transform `line` by replacing the confidently detected timestamp substring
/// with `new_ts` rendered in the SAME format. Everything outside the detected
/// span is preserved byte-for-byte. Returns None when no timestamp was
/// detected (caller falls back to observed-time semantics, body untouched).
pub fn transform(line: &str, new_ts: UtcTime) -> (r: Option<Transformed>)
    ensures
        is_transformed(line@, new_ts@, body_view(r)),
        r matches Some(x) ==> x.ts == new_ts,
{
    let cs = chars_of(line);
    let f = find_timestamp(&cs)?;
    proof {
        lemma_scan_valid(line@);
    }
    let o = local_offset(f.format, &new_ts);
    let body = retime(&cs, &f, new_ts, o.seconds());
    assert(body@ == transformed(line@, new_ts@, o.east_of_utc()));
    assert(answers(o, rendered_by_offset_of(scan(line@)->0.format, new_ts@)));
    Some(Transformed { body, ts: new_ts })
}

// ---------------------------------------------------------------------------
// JSON lines
// ---------------------------------------------------------------------------

/// The keys under which a timestamp is looked for, in their order.
pub open spec fn ts_key(k: int) -> Seq<char> {
    if k == 0 {
        "timestamp"@
    } else if k == 1 {
        "@timestamp"@
    } else if k == 2 {
        "ts"@
    } else if k == 3 {
        "time"@
    } else if k == 4 {
        "date"@
    } else if k == 5 {
        "datetime"@
    } else {
        "_time"@
    }
}

/// The first of the keys, from the `k`th on, that the object has.
pub open spec fn chosen_key(e: Seq<(Seq<char>, FieldView)>, k: int) -> Option<Seq<char>>
    decreases 7 - k,
{
    if k >= 7 {
        None
    } else if field_of(e, ts_key(k)) is Some {
        Some(ts_key(k))
    } else {
        chosen_key(e, k + 1)
    }
}

/// The IEEE 754 bits of 2e9.
pub const DOUBLE_2E9: u64 = 0x41dd_cd65_0000_0000;

/// The IEEE 754 bits of 8e12.
pub const DOUBLE_8E12: u64 = 0x429d_1a94_a200_0000;

/// The weight of the sign bit of a double.
pub const DOUBLE_SIGN: u64 = 0x8000_0000_0000_0000;

/// A double of plausible magnitude: at least 2e9 and below 8e12, of either
/// sign. The bits of doubles of one sign are ordered as the doubles are.
pub open spec fn plausible_double(bits: u64) -> bool {
    DOUBLE_2E9 <= bits % DOUBLE_SIGN < DOUBLE_8E12
}

/// The number that takes the place of a numeric timestamp: milliseconds for a
/// positive one, seconds for a negative one, nothing for one that is not of
/// plausible magnitude.
pub open spec fn retimed_number(double: Option<u64>, t: int) -> Option<int> {
    match double {
        Some(bits) if plausible_double(bits) => Some(
            if bits < DOUBLE_SIGN {
                t / 1_000_000
            } else {
                crate::clock::whole_seconds(t)
            },
        ),
        _ => None,
    }
}

/// The new value of a timestamp field.
pub open spec fn retimed_field(f: FieldView, t: int, off: int) -> Option<FieldView> {
    match f {
        FieldView::Text(s) => if scan(s) is Some {
            Some(FieldView::Text(transformed(s, t, off)))
        } else {
            None
        },
        FieldView::Number(n) => match retimed_number(json_double(n), t) {
            Some(v) => Some(FieldView::Number(signed_padded(v, 1))),
            None => None,
        },
        _ => None,
    }
}

/// The fields of the object with the timestamp field replaced: key order and
/// all other fields are kept.
pub open spec fn retimed_object(
    e: Seq<(Seq<char>, FieldView)>,
    t: int,
    off: int,
) -> Option<Seq<(Seq<char>, FieldView)>> {
    match chosen_key(e, 0) {
        Some(key) => match retimed_field(field_of(e, key)->0, t, off) {
            Some(v) => Some(with_field(e, key, v)),
            None => None,
        },
        None => None,
    }
}

/// The text that takes the place of a JSON line.
pub open spec fn json_outcome(line: Seq<char>, t: int, off: int) -> Option<Seq<char>> {
    match json_value(line) {
        Ok(JsonView::Object(e)) => match retimed_object(e, t, off) {
            Some(e2) => json_text(e2),
            None => None,
        },
        _ => None,
    }
}

/// The format of the timestamp that is detected in the text of a field, if there
/// is one.
pub open spec fn field_format(f: FieldView) -> Option<DetectedFormat> {
    match f {
        FieldView::Text(s) => if scan(s) is Some {
            Some(scan(s)->0.format)
        } else {
            None
        },
        _ => None,
    }
}

/// The format of the timestamp that is detected in the text of the timestamp
/// field of a JSON line, if there is one: only such a field goes by the local
/// clock.
pub open spec fn json_format(line: Seq<char>) -> Option<DetectedFormat> {
    match json_value(line) {
        Ok(JsonView::Object(e)) => match chosen_key(e, 0) {
            Some(key) => field_format(field_of(e, key)->0),
            None => None,
        },
        _ => None,
    }
}

/// `body` is the text that takes the place of a JSON line, by the machine's time
/// zone.
pub open spec fn is_json_transformed(line: Seq<char>, t: int, body: Option<Seq<char>>) -> bool {
    match json_format(line) {
        Some(f) => exists|o: LocalOffset| #[trigger]
            answers(o, rendered_by_offset_of(f, t)) && body == json_outcome(
                line,
                t,
                o.east_of_utc(),
            ),
        None => body == json_outcome(line, t, 0),
    }
}

/// The timestamp field among the fields of an object: its key and its position.
pub fn pick_field(e: &Vec<(String, Field)>) -> (r: Option<(&'static str, usize)>)
    ensures
        match r {
            Some((key, i)) => {
                &&& chosen_key(entries_view(e@), 0) == Some(key@)
                &&& i < e@.len()
                &&& field_of(entries_view(e@), key@) == Some(e@[i as int].1@)
                &&& has_key(entries_view(e@), key@)
            },
            None => chosen_key(entries_view(e@), 0) is None,
        },
{
    let mut k: usize = 0;
    while k < 7
        invariant
            k <= 7,
            chosen_key(entries_view(e@), 0) == chosen_key(entries_view(e@), k as int),
        decreases 7 - k,
    {
        let key = match k {
            0 => "timestamp",
            1 => "@timestamp",
            2 => "ts",
            3 => "time",
            4 => "date",
            5 => "datetime",
            _ => "_time",
        };
        if let Some(i) = find_key(e, key) {
            return Some((key, i));
        }
        k += 1;
    }
    None
}

/// The number that takes the place of a numeric timestamp.
pub fn retime_number(double: Option<u64>, new_ts: UtcTime) -> (r: Option<i64>)
    ensures
        match r {
            Some(n) => retimed_number(double, new_ts@) == Some(n as int) && n > i64::MIN,
            None => retimed_number(double, new_ts@) is None,
        },
{
    let bits: u64 = double?;
    let size: u64 = bits % DOUBLE_SIGN;
    if size < DOUBLE_2E9 || DOUBLE_8E12 <= size {
        return None;
    }
    if bits < DOUBLE_SIGN {
        Some(new_ts.millis())
    } else {
        Some(new_ts.seconds())
    }
}

/// `r` is the new value of the field.
pub open spec fn new_field_is(r: Option<NewField>, f: Field, t: int, off: int) -> bool {
    match f {
        Field::Text(s) => match r {
            Some(NewField::Text(x)) => scan(s@) is Some && x@ == transformed(s@, t, off),
            Some(_) => false,
            None => scan(s@) is None,
        },
        Field::Number { double, .. } => match r {
            Some(NewField::Integer(n)) => retimed_number(double, t) == Some(n as int),
            Some(_) => false,
            None => retimed_number(double, t) is None,
        },
        _ => r is None,
    }
}

/// The new value of a timestamp field, where the local clock is `off` seconds
/// east of UTC. Texts are transformed as lines are; of numbers only those of
/// plausible magnitude are timestamps.
pub fn retime_field(f: &Field, new_ts: UtcTime, off: i32) -> (r: Option<NewField>)
    requires
        valid_offset(off as int),
    ensures
        new_field_is(r, *f, new_ts@, off as int),
{
    match f {
        Field::Text(s) => {
            let x = transform_at(s.as_str(), new_ts, off)?;
            Some(NewField::Text(x.body))
        },
        Field::Number { double, .. } => Some(NewField::Integer(retime_number(*double, new_ts)?)),
        _ => None,
    }
}

/// The offset of the local clock that the field is rendered by. Only a text
/// with a timestamp in it is.
fn field_offset(f: &Field, new_ts: &UtcTime) -> (r: Option<LocalOffset>)
    ensures
        match field_format(f@) {
            Some(format) => r matches Some(o) && answers(o, rendered_by_offset_of(format, new_ts@)),
            None => r is None,
        },
{
    match f {
        Field::Text(s) => {
            match find_timestamp(&chars_of(s.as_str())) {
                Some(x) => Some(local_offset(x.format, new_ts)),
                None => None,
            }
        },
        _ => None,
    }
}

/// Transform a JSON line's timestamp field (structured transform).
/// Preserves key order and all other fields. Returns None when the line isn't
/// JSON or no timestamp field is detected — the caller then falls back to the
/// substring path.
pub fn transform_json(line: &str, new_ts: UtcTime) -> (r: Option<Transformed>)
    ensures
        is_json_transformed(line@, new_ts@, body_view(r)),
        r matches Some(x) ==> x.ts == new_ts,
{
    let mut m = match parse_json(line) {
        Ok(Json::Object(m)) => m,
        _ => {
            return None;
        },
    };
    let e = entries(&m);
    let ghost fields = json_entries(m);
    let (key, i) = match pick_field(&e) {
        Some(p) => p,
        None => {
            return None;
        },
    };
    let ghost held = e@[i as int].1;
    let o = field_offset(&e[i].1, &new_ts);
    let off: i32 = match &o {
        Some(o) => o.seconds(),
        None => 0,
    };
    proof {
        assert(json_format(line@) == field_format(held@));
        if json_format(line@) is Some {
            assert(answers(o->0, rendered_by_offset_of(json_format(line@)->0, new_ts@)));
        }
    }
    match retime_field(&e[i].1, new_ts, off) {
        Some(v) => set_field(&mut m, key, v),
        None => {
            assert(retimed_field(held@, new_ts@, off as int) is None);
            assert(json_outcome(line@, new_ts@, off as int) is None);
            return None;
        },
    }
    assert(retimed_object(fields, new_ts@, off as int) == Some(json_entries(m)));
    match write_object(&m) {
        Some(body) => {
            assert(json_outcome(line@, new_ts@, off as int) == Some(body@));
            Some(Transformed { body, ts: new_ts })
        },
        None => {
            assert(json_outcome(line@, new_ts@, off as int) is None);
            None
        },
    }
}

/// A retimed object has the keys of the old one in the same order, and every
/// field but that of the timestamp holds what it held.
pub proof fn lemma_json_keeps_other_fields(e: Seq<(Seq<char>, FieldView)>, t: int, off: int)
    requires
        retimed_object(e, t, off) is Some,
    ensures
        ({
            let e2 = retimed_object(e, t, off)->0;
            let key = chosen_key(e, 0)->0;
            &&& e2.len() == e.len()
            &&& forall|i: int| 0 <= i < e.len() ==> (#[trigger] e2[i]).0 == e[i].0
            &&& forall|i: int| 0 <= i < e.len() && e[i].0 != key ==> #[trigger] e2[i] == e[i]
            &&& forall|i: int|
                0 <= i < e.len() && e[i].0 == key ==> Some((#[trigger] e2[i]).1) == retimed_field(
                    field_of(e, key)->0,
                    t,
                    off,
                )
        }),
{
}

// ---------------------------------------------------------------------------
// Hosts of syslog lines
// ---------------------------------------------------------------------------

/// Where the white space, or the text without white space, that begins at `p`
/// ends.
pub open spec fn run_end(s: Seq<char>, p: int, white: bool) -> int
    decreases s.len() - p,
{
    if 0 <= p < s.len() && white_space(s[p]) == white {
        run_end(s, p + 1, white)
    } else {
        p
    }
}

/// The word behind `Mon DD HH:MM:SS` at the start of a line.
pub open spec fn host_word(s: Seq<char>) -> Option<Seq<char>> {
    let day = run_end(s, 3, true);
    let day_end = day + digit_run(s, day, 2);
    let time = run_end(s, day_end, true);
    let host = run_end(s, time + 8, true);
    let host_end = run_end(s, host, false);
    if fits(s, 0, "www"@) && day > 3 && day_end > day && time > day_end && fits(
        s,
        time,
        "dd:dd:dd"@,
    ) && host > time + 8 && host_end > host {
        Some(s.subrange(host, host_end))
    } else {
        None
    }
}

fn skip_run(cs: &Vec<char>, p: usize, white: bool) -> (r: usize)
    requires
        p <= cs@.len(),
    ensures
        r == run_end(cs@, p as int, white),
        p <= r <= cs@.len(),
{
    let mut q: usize = p;
    while q < cs.len() && is_white_space(cs[q]) == white
        invariant
            p <= q <= cs@.len(),
            run_end(cs@, p as int, white) == run_end(cs@, q as int, white),
        decreases cs@.len() - q,
    {
        q += 1;
    }
    q
}

/// Extract a syslog-style host token (`Mon DD HH:MM:SS host ...`).
pub fn syslog_host(line: &str) -> (r: Option<String>)
    ensures
        match r {
            Some(h) => host_word(line@) == Some(h@),
            None => host_word(line@) is None,
        },
{
    proof {
        reveal_strlit("www");
        reveal_strlit("dd:dd:dd");
    }
    let cs = chars_of(line);
    if !has_shape(&cs, 0, &chars_of("www")) {
        return None;
    }
    let day: usize = skip_run(&cs, 3, true);
    let day_end: usize = day + count_digits(&cs, day, 2);
    let time: usize = skip_run(&cs, day_end, true);
    if !(day > 3 && day_end > day && time > day_end && has_shape(
        &cs,
        time,
        &chars_of("dd:dd:dd"),
    )) {
        return None;
    }
    assert(time + 8 <= cs.len());
    let host: usize = skip_run(&cs, time + 8, true);
    let host_end: usize = skip_run(&cs, host, false);
    if host > time + 8 && host_end > host {
        Some(string_of(&cs, host, host_end))
    } else {
        None
    }
}

// ---------------------------------------------------------------------------
// Outside the span
// ---------------------------------------------------------------------------

/// Everything outside the detected span is preserved byte for byte: the bytes
/// of a transformed line are those of the line up to the start of the span,
/// those of the rendered timestamp, and those of the line from the end of the
/// span on.
pub proof fn lemma_bytes_outside_are_preserved(line: Seq<char>, t: int, off: int)
    requires
        scan(line) is Some,
    ensures
        ({
            let r = scan(line)->0;
            let x = rendered(r.format, r.aux, r.end - r.start > 10, t, off);
            let before = encode_utf8(line);
            let after = encode_utf8(transformed(line, t, off));
            &&& 0 <= byte_offset(line, r.start) <= byte_offset(line, r.end) <= before.len()
            &&& after == before.take(byte_offset(line, r.start)) + encode_utf8(x) + before.skip(
                byte_offset(line, r.end),
            )
        }),
{
    lemma_scan_valid(line);
    let r = scan(line)->0;
    let x = rendered(r.format, r.aux, r.end - r.start > 10, t, off);
    let a = line.take(r.start);
    let m = line.subrange(r.start, r.end);
    let z = line.skip(r.end);
    assert(line =~= a + m + z);
    assert(line.take(r.end) =~= a + m);
    lemma_utf8_concat(a, m);
    lemma_utf8_concat(a + m, z);
    lemma_utf8_concat(a, x);
    lemma_utf8_concat(a + x, z);
    let before = encode_utf8(line);
    assert(before.take(byte_offset(line, r.start)) =~= encode_utf8(a));
    assert(before.skip(byte_offset(line, r.end)) =~= encode_utf8(z));
}

} // verus!
