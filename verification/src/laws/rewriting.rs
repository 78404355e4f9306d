//! Lines that are rewritten: which timestamp of a line or of a JSON object is
//! replaced, and by what; and the host of a syslog line.

use vstd::prelude::*;

use crate::classes::{fits, fits_mark};
use crate::clock::{answers, LocalOffset, UtcTime};
use crate::detectors::{digit_run, scan};
use crate::event::Event;
use crate::formats::DetectedFormat;
use crate::json::{
    field_from, field_of, json_double, json_text, json_value, with_field, Field, FieldView,
    JsonView, NewField,
};
use crate::render::rendered;
use crate::text::{ends_with, signed_padded, starts_with, white_space};
use crate::timestamp::{
    body_view, chosen_key, host_word, in_millis, json_format, json_outcome, lemma_scan_valid,
    render, render_at,
    rendered_by_offset_of, retime_field, retime_number, retimed_field, retimed_number, run_end,
    syslog_host, transform, transform_at, transform_json, transformed, Transformed, TsMatch,
};

verus! {

broadcast use vstd::string::group_string_axioms;

/// The keys of a timestamp, in the order in which they count.
pub open spec fn timestamp_keys() -> Seq<Seq<char>> {
    seq![
        "timestamp"@,
        "@timestamp"@,
        "ts"@,
        "time"@,
        "date"@,
        "datetime"@,
        "_time"@,
    ]
}

/// The timestamp of an object is under the first of the keys that it has.
pub proof fn lemma_first_key_counts(e: Seq<(Seq<char>, FieldView)>, k: int)
    requires
        0 <= k < timestamp_keys().len(),
        field_of(e, timestamp_keys()[k]) is Some,
        forall|j: int| 0 <= j < k ==> field_of(e, #[trigger] timestamp_keys()[j]) is None,
    ensures
        chosen_key(e, 0) == Some(timestamp_keys()[k]),
{
    reveal_with_fuel(chosen_key, 8);
    let t = timestamp_keys();
    assert(forall|j: int| 0 <= j < k ==> field_of(e, #[trigger] t[j]) is None);
    assert(k > 0 ==> field_of(e, t[0]) is None);
    assert(k > 1 ==> field_of(e, t[1]) is None);
    assert(k > 2 ==> field_of(e, t[2]) is None);
    assert(k > 3 ==> field_of(e, t[3]) is None);
    assert(k > 4 ==> field_of(e, t[4]) is None);
    assert(k > 5 ==> field_of(e, t[5]) is None);
}

/// An object with none of the keys has no timestamp.
pub proof fn lemma_other_keys_do_not_count(e: Seq<(Seq<char>, FieldView)>)
    requires
        forall|j: int| 0 <= j < 7 ==> field_of(e, #[trigger] timestamp_keys()[j]) is None,
    ensures
        chosen_key(e, 0) is None,
{
    reveal_with_fuel(chosen_key, 8);
    let t = timestamp_keys();
    assert(forall|j: int| 0 <= j < 7 ==> field_of(e, #[trigger] t[j]) is None);
    assert(field_of(e, t[0]) is None && field_of(e, t[1]) is None && field_of(e, t[2]) is None);
    assert(field_of(e, t[3]) is None && field_of(e, t[4]) is None && field_of(e, t[5]) is None);
    assert(field_of(e, t[6]) is None);
}

/// A key holds what the first field with it holds, and nothing where there is
/// none.
pub proof fn lemma_fields_are_found(e: Seq<(Seq<char>, FieldView)>, key: Seq<char>, i: int)
    requires
        0 <= i <= e.len(),
        forall|j: int| 0 <= j < i ==> (#[trigger] e[j]).0 != key,
    ensures
        i < e.len() && e[i].0 == key ==> field_of(e, key) == Some(e[i].1),
        i == e.len() ==> field_of(e, key) is None,
{
    lemma_fields_are_passed_over(e, key, i);
}

proof fn lemma_fields_are_passed_over(e: Seq<(Seq<char>, FieldView)>, key: Seq<char>, i: int)
    requires
        0 <= i <= e.len(),
        forall|j: int| 0 <= j < i ==> (#[trigger] e[j]).0 != key,
    ensures
        field_of(e, key) == field_from(e, key, i),
    decreases i,
{
    if i > 0 {
        lemma_fields_are_passed_over(e, key, i - 1);
    }
}

/// A number is taken for a timestamp when it is from 2e9 up to 8e12, by the bits
/// of its double, or their negatives; a positive one becomes milliseconds, a
/// negative one seconds.
pub proof fn lemma_numbers_are_retimed(bits: u64, t: int)
    ensures
        0x41dd_cd65_0000_0000 <= bits < 0x429d_1a94_a200_0000 ==> retimed_number(Some(bits), t)
            == Some(t / 1_000_000),
        0xc1dd_cd65_0000_0000 <= bits < 0xc29d_1a94_a200_0000 ==> retimed_number(Some(bits), t)
            == Some(t / 1_000_000_000),
        bits < 0x41dd_cd65_0000_0000 ==> retimed_number(Some(bits), t) is None,
        0x429d_1a94_a200_0000 <= bits < 0xc1dd_cd65_0000_0000 ==> retimed_number(Some(bits), t)
            is None,
        bits >= 0xc29d_1a94_a200_0000 ==> retimed_number(Some(bits), t) is None,
        retimed_number(None, t) is None,
{
}

/// The same of the operation on numbers.
pub proof fn lemma_retime_number(double: Option<u64>, t: UtcTime, r: Option<i64>)
    requires
        call_ensures(retime_number, (double, t), r),
    ensures
        double is None ==> r is None,
        double matches Some(bits) ==> {
            &&& 0x41dd_cd65_0000_0000 <= bits < 0x429d_1a94_a200_0000 ==> r is Some && r->0 == t@
                / 1_000_000
            &&& 0xc1dd_cd65_0000_0000 <= bits < 0xc29d_1a94_a200_0000 ==> r is Some && r->0 == t@
                / 1_000_000_000
            &&& bits < 0x41dd_cd65_0000_0000 ==> r is None
            &&& 0x429d_1a94_a200_0000 <= bits < 0xc1dd_cd65_0000_0000 ==> r is None
            &&& bits >= 0xc29d_1a94_a200_0000 ==> r is None
        },
{
    if let Some(bits) = double {
        lemma_numbers_are_retimed(bits, t@);
    }
}

/// A timestamp is written anew in the format that it had, and an epoch of more than
/// ten digits in milliseconds.
pub proof fn lemma_matches_are_rendered(
    m: TsMatch,
    t: UtcTime,
    off: i32,
    r: String,
    here: String,
)
    requires
        call_ensures(render_at, (&m, t, off), r),
        call_ensures(render, (&m, t), here),
    ensures
        r@ == rendered(m.format, m.aux, m.end > m.start + 10, t@, off as int),
        exists|o: LocalOffset| #[trigger]
            answers(o, rendered_by_offset_of(m.format, t@)) && here@ == rendered(
                m.format,
                m.aux,
                m.end > m.start + 10,
                t@,
                o.east_of_utc(),
            ),
{
    let o = choose|o: LocalOffset| #[trigger]
        answers(o, rendered_by_offset_of(m.format, t@)) && here@ == rendered(
            m.format,
            m.aux,
            in_millis(m),
            t@,
            o.east_of_utc(),
        );
    assert(answers(o, rendered_by_offset_of(m.format, t@)) && here@ == rendered(
        m.format,
        m.aux,
        m.end > m.start + 10,
        t@,
        o.east_of_utc(),
    ));
}

/// A text under a timestamp key is rewritten where a timestamp is detected in it;
/// truth values and nested values never are.
pub proof fn lemma_texts_are_retimed(s: Seq<char>, b: bool, t: int, off: int)
    ensures
        scan(s) is Some ==> retimed_field(FieldView::Text(s), t, off) == Some(
            FieldView::Text(transformed(s, t, off)),
        ),
        scan(s) is None ==> retimed_field(FieldView::Text(s), t, off) is None,
        retimed_field(FieldView::Bool(b), t, off) is None,
        retimed_field(FieldView::Other(s), t, off) is None,
{
}

/// What stands in front of a timestamp and behind it stays; the timestamp itself
/// is written anew in the format that it had, an epoch of up to ten digits in
/// seconds and a longer one in milliseconds.
pub proof fn lemma_line_is_rewritten(s: Seq<char>, t: int, off: int)
    requires
        scan(s) is Some,
        0 <= scan(s)->0.start <= scan(s)->0.end <= s.len(),
    ensures
        ({
            let r = scan(s)->0;
            transformed(s, t, off) == s.take(r.start) + rendered(
                r.format,
                r.aux,
                r.end > r.start + 10,
                t,
                off,
            ) + s.skip(r.end)
        }),
{
    let r = scan(s)->0;
    assert(transformed(s, t, off) =~= s.take(r.start) + rendered(
        r.format,
        r.aux,
        r.end > r.start + 10,
        t,
        off,
    ) + s.skip(r.end));
}

/// A line is transformed exactly when a timestamp is detected in it, to the
/// instant that was asked for; what stands around the timestamp is kept.
#[verifier::rlimit(40)]
pub proof fn lemma_transformed_line(
    line: &str,
    t: UtcTime,
    off: i32,
    r: Option<Transformed>,
    here: Option<Transformed>,
)
    requires
        call_ensures(transform_at, (line, t, off), r),
        call_ensures(transform, (line, t), here),
    ensures
        r is Some <==> scan(line@) is Some,
        here is Some <==> scan(line@) is Some,
        r matches Some(x) ==> x.ts == t,
        here matches Some(x) ==> x.ts == t,
        scan(line@) matches Some(m) ==> {
            &&& starts_with(r->0.body@, line@.take(m.start))
            &&& ends_with(r->0.body@, line@.skip(m.end))
            &&& starts_with(here->0.body@, line@.take(m.start))
            &&& ends_with(here->0.body@, line@.skip(m.end))
            &&& r->0.body@ == line@.take(m.start) + rendered(
                m.format,
                m.aux,
                m.end > m.start + 10,
                t@,
                off as int,
            ) + line@.skip(m.end)
        },
{
    if scan(line@) is Some {
        let s = line@;
        let m = scan(s)->0;
        lemma_scan_valid(s);
        lemma_line_is_rewritten(s, t@, off as int);
        lemma_kept_around(s.take(m.start), r->0.body@, s.skip(m.end), rendered(
            m.format,
            m.aux,
            m.end > m.start + 10,
            t@,
            off as int,
        ));
        let o = choose|o: LocalOffset| #[trigger]
            answers(o, rendered_by_offset_of(m.format, t@)) && here->0.body@ == transformed(
                s,
                t@,
                o.east_of_utc(),
            );
        lemma_line_is_rewritten(s, t@, o.east_of_utc());
        lemma_kept_around(s.take(m.start), here->0.body@, s.skip(m.end), rendered(
            m.format,
            m.aux,
            m.end > m.start + 10,
            t@,
            o.east_of_utc(),
        ));
    }
}

proof fn lemma_kept_around(a: Seq<char>, text: Seq<char>, b: Seq<char>, middle: Seq<char>)
    requires
        text == a + middle + b,
    ensures
        starts_with(text, a),
        ends_with(text, b),
{
    assert(text.subrange(0, a.len() as int) =~= a);
    assert(text.subrange(text.len() - b.len(), text.len() as int) =~= b);
}

/// A line that is no JSON object, or an object with none of the keys, is no JSON
/// line to transform; one with a number under its key is transformed when the
/// number is a timestamp, and becomes the same object with the new number.
#[verifier::rlimit(40)]
pub proof fn lemma_transformed_object(line: &str, t: UtcTime, r: Option<Transformed>)
    requires
        call_ensures(transform_json, (line, t), r),
    ensures
        json_value(line@) is Err ==> r is None,
        json_value(line@) matches Ok(JsonView::List(_)) ==> r is None,
        json_value(line@) matches Ok(JsonView::Other) ==> r is None,
        json_value(line@) matches Ok(JsonView::Object(e)) ==> {
            &&& chosen_key(e, 0) is None ==> r is None
            &&& chosen_key(e, 0) matches Some(key) ==> (field_of(e, key) matches Some(
                FieldView::Number(n),
            ) ==> {
                &&& retimed_number(json_double(n), t@) is None ==> r is None
                &&& retimed_number(json_double(n), t@) matches Some(v) ==> body_view(r)
                    == json_text(with_field(e, key, FieldView::Number(signed_padded(v, 1))))
            })
            &&& chosen_key(e, 0) matches Some(key) ==> (field_of(e, key) matches Some(
                FieldView::Text(s),
            ) ==> (scan(s) is None ==> r is None) && (scan(s) is Some ==> exists|off: int|
                body_view(r) == json_text(
                    with_field(e, key, FieldView::Text(#[trigger] transformed(s, t@, off))),
                )))
        },
        r matches Some(x) ==> x.ts == t,
{
    if let Some(f) = json_format(line@) {
        let o = choose|o: LocalOffset| #[trigger]
            answers(o, rendered_by_offset_of(f, t@)) && body_view(r) == json_outcome(
                line@,
                t@,
                o.east_of_utc(),
            );
        if let Ok(JsonView::Object(e)) = json_value(line@) {
            let key = chosen_key(e, 0)->0;
            if let Some(FieldView::Text(s)) = field_of(e, key) {
                assert(body_view(r) == json_text(
                    with_field(e, key, FieldView::Text(transformed(s, t@, o.east_of_utc()))),
                ));
            }
        }
    }
}

/// A text field is rewritten as a line is; a number by its magnitude; anything
/// else is left alone.
pub proof fn lemma_fields_are_retimed(f: Field, t: UtcTime, off: i32, r: Option<NewField>)
    requires
        call_ensures(retime_field, (&f, t, off), r),
    ensures
        f is Bool || f is Other ==> r is None,
        f matches Field::Text(s) ==> (r is Some <==> scan(s@) is Some),
        f matches Field::Text(s) ==> (r matches Some(x) ==> (x matches NewField::Text(y) && y@
            == transformed(s@, t@, off as int))),
        f matches Field::Number { double, .. } ==> (r is Some <==> retimed_number(double, t@)
            is Some),
        f matches Field::Number { double, .. } ==> (r matches Some(x) ==> x is Integer && Some(
            x->Integer_0 as int,
        ) == retimed_number(double, t@)),
{
}

/// An ISO timestamp without a zone goes by the offset of the local clock now, and
/// every other one without a zone by its offset at the new instant.
pub proof fn lemma_offsets_that_are_asked_for(f: DetectedFormat, t: int)
    ensures
        rendered_by_offset_of(DetectedFormat::Iso, t) is None,
        f != DetectedFormat::Iso ==> rendered_by_offset_of(f, t) == Some(t / 1_000_000_000),
{
}

/// The host of an event is that of its body, or nothing.
pub proof fn lemma_hosts_are_extracted(
    line: &str,
    h: Option<String>,
    e: Event,
    r: String,
)
    requires
        call_ensures(syslog_host, (line,), h),
        call_ensures(Event::extracted_host, (&e,), r),
    ensures
        h matches Some(s) ==> host_word(line@) == Some(s@),
        h is None ==> host_word(line@) is None,
        host_word(e.body@) matches Some(s) ==> r@ == s,
        host_word(e.body@) is None ==> r@.len() == 0,
{
}

/// The host of a syslog line is the word behind the time of day.
#[verifier::rlimit(40)]
pub proof fn lemma_host_is_behind_the_time(s: Seq<char>, e: int)
    requires
        fits(s, 0, "www dd dd:dd:dd "@),
        16 < e <= s.len(),
        forall|k: int| 16 <= k < e ==> !white_space(#[trigger] s[k]),
        e == s.len() || white_space(s[e]),
    ensures
        host_word(s) == Some(s.subrange(16, e)),
{
    reveal_strlit("www dd dd:dd:dd ");
    reveal_strlit("www");
    reveal_strlit("dd:dd:dd");
    let shape = "www dd dd:dd:dd "@;
    assert(forall|k: int| 0 <= k < 16 ==> fits_mark(#[trigger] shape[k], s[0 + k]));
    assert(fits_mark(shape[0], s[0]) && fits_mark(shape[1], s[1]) && fits_mark(shape[2], s[2]));
    assert(fits_mark(shape[3], s[3]) && fits_mark(shape[4], s[4]) && fits_mark(shape[5], s[5]));
    assert(fits_mark(shape[6], s[6]) && fits_mark(shape[7], s[7]) && fits_mark(shape[8], s[8]));
    assert(fits_mark(shape[9], s[9]) && fits_mark(shape[10], s[10]) && fits_mark(
        shape[11],
        s[11],
    ));
    assert(fits_mark(shape[12], s[12]) && fits_mark(shape[13], s[13]) && fits_mark(
        shape[14],
        s[14],
    ));
    assert(fits_mark(shape[15], s[15]));
    assert(s[3] == ' ' && s[6] == ' ' && s[9] == ':' && s[12] == ':' && s[15] == ' ');
    let w = "www"@;
    assert forall|k: int| 0 <= k < 3 implies fits_mark(#[trigger] w[k], s[0 + k]) by {
        assert(k == 0 || k == 1 || k == 2);
    }
    let d = "dd:dd:dd"@;
    assert forall|k: int| 0 <= k < 8 implies fits_mark(#[trigger] d[k], s[7 + k]) by {
        assert(k == 0 || k == 1 || k == 2 || k == 3 || k == 4 || k == 5 || k == 6 || k == 7);
    }
    reveal_with_fuel(run_end, 3);
    reveal_with_fuel(digit_run, 4);
    assert(!white_space(s[4]) && !white_space(s[7]) && !white_space(s[16]));
    assert(run_end(s, 3, true) == 4);
    assert(digit_run(s, 4, 2) == 2);
    assert(run_end(s, 6, true) == 7);
    assert(run_end(s, 15, true) == 16);
    lemma_word_runs_on(s, 16, e);
}

/// So it is where the day has one digit behind two spaces.
#[verifier::rlimit(40)]
pub proof fn lemma_host_is_behind_a_short_day(s: Seq<char>, e: int)
    requires
        fits(s, 0, "www  d dd:dd:dd "@),
        16 < e <= s.len(),
        forall|k: int| 16 <= k < e ==> !white_space(#[trigger] s[k]),
        e == s.len() || white_space(s[e]),
    ensures
        host_word(s) == Some(s.subrange(16, e)),
{
    reveal_strlit("www  d dd:dd:dd ");
    reveal_strlit("www");
    reveal_strlit("dd:dd:dd");
    let shape = "www  d dd:dd:dd "@;
    assert(forall|k: int| 0 <= k < 16 ==> fits_mark(#[trigger] shape[k], s[0 + k]));
    assert(fits_mark(shape[0], s[0]) && fits_mark(shape[1], s[1]) && fits_mark(shape[2], s[2]));
    assert(fits_mark(shape[3], s[3]) && fits_mark(shape[4], s[4]) && fits_mark(shape[5], s[5]));
    assert(fits_mark(shape[6], s[6]) && fits_mark(shape[7], s[7]) && fits_mark(shape[8], s[8]));
    assert(fits_mark(shape[9], s[9]) && fits_mark(shape[10], s[10]) && fits_mark(
        shape[11],
        s[11],
    ));
    assert(fits_mark(shape[12], s[12]) && fits_mark(shape[13], s[13]) && fits_mark(
        shape[14],
        s[14],
    ));
    assert(fits_mark(shape[15], s[15]));
    assert(s[3] == ' ' && s[4] == ' ' && s[6] == ' ' && s[9] == ':' && s[12] == ':' && s[15]
        == ' ');
    let w = "www"@;
    assert forall|k: int| 0 <= k < 3 implies fits_mark(#[trigger] w[k], s[0 + k]) by {
        assert(k == 0 || k == 1 || k == 2);
    }
    let d = "dd:dd:dd"@;
    assert forall|k: int| 0 <= k < 8 implies fits_mark(#[trigger] d[k], s[7 + k]) by {
        assert(k == 0 || k == 1 || k == 2 || k == 3 || k == 4 || k == 5 || k == 6 || k == 7);
    }
    reveal_with_fuel(run_end, 4);
    reveal_with_fuel(digit_run, 4);
    assert(!white_space(s[5]) && !white_space(s[7]) && !white_space(s[16]));
    assert(run_end(s, 3, true) == 5);
    assert(digit_run(s, 5, 2) == 1);
    assert(run_end(s, 6, true) == 7);
    assert(run_end(s, 15, true) == 16);
    lemma_word_runs_on(s, 16, e);
}

proof fn lemma_word_runs_on(s: Seq<char>, p: int, e: int)
    requires
        0 <= p <= e <= s.len(),
        forall|k: int| p <= k < e ==> !white_space(#[trigger] s[k]),
        e == s.len() || white_space(s[e]),
    ensures
        run_end(s, p, false) == e,
    decreases e - p,
{
    if p < e {
        lemma_word_runs_on(s, p + 1, e);
    }
}

} // verus!
