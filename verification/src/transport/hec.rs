//! Splunk HEC transport: batches of JSON envelopes posted to
//! `{endpoint}/services/collector/event`. Per-event codes from the response
//! enable partial-success attribution. Tokens are sent only via the
//! `Authorization: Splunk <token>` header and never logged.

use serde_json::{Map as JsonMap, Value as JsonValue};
use vstd::prelude::*;
use vstd::utf8::{encode_utf8, is_char_boundary};

use crate::clock::{subsec, whole_seconds, UtcTime};
use crate::config::ConfigError;
use crate::event::{stamp_of, Event};
use crate::json::{
    entries, field_of, find_key, integer_value, json_entries, json_value, parse_json, Field,
    FieldView, Json, JsonView,
};
use crate::settings::{chosen_text, resolve_string, text_view};
use crate::text::{
    chars_of, contains, len_without_trailing, occurs_at, occurs_in, string_of, trim_end_char,
};
use crate::timestamp::{host_word, syslog_host};
use crate::transport::{refusal, refusal_is, result_is, success_status, BatchResult};

verus! {

broadcast use vstd::string::group_string_axioms;

/// What is sent to a HEC endpoint, and where.
pub struct SplunkHecTransport {
    pub url: String,
    pub token: String,
    pub index: Option<String>,
    pub source_override: Option<String>,
    pub sourcetype_override: Option<String>,
    pub host_override: Option<String>,
    pub host_default: String,
}

/// The host of events that name none.
pub open spec fn default_host_of(host: Seq<char>) -> Seq<char> {
    if host.len() == 0 {
        "simulated-host"@
    } else {
        host
    }
}

/// The host of events that name none: the given one, unless it is empty.
pub fn default_host(host: &str) -> (r: String)
    ensures
        r@ == default_host_of(host@),
{
    if chars_of(host).len() == 0 {
        "simulated-host".to_owned()
    } else {
        host.to_owned()
    }
}

/// The time of a HEC event: seconds and milliseconds since the epoch.
#[derive(Debug, Clone, Copy, PartialEq, Eq, Structural)]
pub struct HecTime {
    pub secs: i64,
    pub millis: u32,
}

/// The time of an instant, with sub-second precision clamped to milliseconds.
pub open spec fn hec_time_of(t: int) -> HecTime {
    HecTime { secs: whole_seconds(t) as i64, millis: (subsec(t) / 1_000_000) as u32 }
}

pub fn hec_time_parts(ts: UtcTime) -> (r: HecTime)
    ensures
        r == hec_time_of(ts@),
        r.secs == whole_seconds(ts@),
        r.millis == subsec(ts@) / 1_000_000,
        r.millis < 1000,
{
    HecTime { secs: ts.seconds(), millis: ts.subsec_nanos() / 1_000_000 }
}

/// A HEC envelope around one event.
#[derive(Debug, Clone)]
pub struct HecEnvelope {
    pub time: HecTime,
    pub host: String,
    pub source: String,
    pub sourcetype: String,
    pub event: String,
    pub index: Option<String>,
}

/// `x` is the envelope of the event: its timestamp or else the time when it was
/// generated, the host that is given, or else that its body names, or else the
/// default, and the source and sourcetype that are given or else its own.
pub open spec fn envelope_is(x: HecEnvelope, t: SplunkHecTransport, e: Event) -> bool {
    &&& x.time == hec_time_of(stamp_of(e)@)
    &&& x.host@ == (match (t.host_override, host_word(e.body@)) {
        (Some(h), _) => h@,
        (None, Some(h)) => h,
        (None, None) => t.host_default@,
    })
    &&& x.source@ == chosen_text(text_view(t.source_override), None, None, e.source_file@)
    &&& x.sourcetype@ == chosen_text(text_view(t.sourcetype_override), None, None, e.source_type@)
    &&& x.event@ == e.body@
    &&& text_view(x.index) == text_view(t.index)
}

impl SplunkHecTransport {
    /// The transport to an endpoint.
    pub fn new(
        endpoint: &str,
        token: String,
        index: Option<String>,
        source: Option<String>,
        sourcetype: Option<String>,
        host: &str,
    ) -> (r: Result<SplunkHecTransport, ConfigError>)
        ensures
            r matches Ok(t) && {
                &&& t.url@ == hec_url(endpoint@)
                &&& t.token@ == token@
                &&& t.index == index
                &&& t.source_override == source
                &&& t.sourcetype_override == sourcetype
                &&& t.host_override is None
                &&& t.host_default@ == default_host_of(host@)
            },
    {
        let url = normalize_hec_url(endpoint)?;
        Ok(
            SplunkHecTransport {
                url,
                token,
                index,
                source_override: source,
                sourcetype_override: sourcetype,
                host_override: None,
                host_default: default_host(host),
            },
        )
    }

    /// The same transport, with one host for all events.
    pub fn with_host(self, host: String) -> (r: SplunkHecTransport)
        ensures
            r == (SplunkHecTransport { host_override: Some(host), ..self }),
    {
        SplunkHecTransport { host_override: Some(host), ..self }
    }

    pub fn name(&self) -> (r: &'static str)
        ensures
            r@ == "hec"@,
    {
        "hec"
    }

    /// The value of the `Authorization` header.
    pub fn authorization(&self) -> (r: String)
        ensures
            r@ == "Splunk "@ + self.token@,
    {
        let mut value = "Splunk ".to_owned();
        value.append(self.token.as_str());
        value
    }

    /// The HEC envelope of one event.
    pub fn envelope(&self, e: &Event) -> (r: HecEnvelope)
        ensures
            envelope_is(r, *self, *e),
    {
        let host = match &self.host_override {
            Some(h) => h.clone(),
            None => match syslog_host(e.body.as_str()) {
                Some(h) => h,
                None => self.host_default.clone(),
            },
        };
        let index = match &self.index {
            Some(i) => Some(i.clone()),
            None => None,
        };
        HecEnvelope {
            time: hec_time_parts(e.stamp()),
            host,
            source: resolve_string(&self.source_override, None, None, e.source_file.as_str()),
            sourcetype: resolve_string(&self.sourcetype_override, None, None, e.source_type),
            event: e.body.clone(),
            index,
        }
    }

    /// The HEC envelopes of a batch.
    pub fn envelopes(&self, batch: &[Event]) -> (r: Vec<HecEnvelope>)
        ensures
            r@.len() == batch@.len(),
            forall|i: int|
                0 <= i < batch@.len() ==> envelope_is(#[trigger] r@[i], *self, batch@[i]),
    {
        let mut out: Vec<HecEnvelope> = Vec::new();
        let mut i: usize = 0;
        while i < batch.len()
            invariant
                i == out@.len(),
                i <= batch@.len(),
                forall|j: int| 0 <= j < i ==> envelope_is(#[trigger] out@[j], *self, batch@[j]),
            decreases batch@.len() - i,
        {
            out.push(self.envelope(&batch[i]));
            i += 1;
        }
        out
    }
}

/// The URL of the event endpoint: the base without slashes at its end, with the
/// path of the collector unless it has it.
pub open spec fn hec_url(endpoint: Seq<char>) -> Seq<char> {
    let base = trim_end_char(endpoint, '/');
    if contains(base, "/services/collector/"@) {
        base
    } else {
        base + "/services/collector/event"@
    }
}

/// `{base}` + `/services/collector/event` unless a full path is supplied.
pub fn normalize_hec_url(endpoint: &str) -> (r: Result<String, ConfigError>)
    ensures
        r matches Ok(url) && url@ == hec_url(endpoint@),
{
    let cs = chars_of(endpoint);
    let n: usize = len_without_trailing(&cs, '/');
    let mut base = string_of(&cs, 0, n);
    if !occurs_in(&chars_of(base.as_str()), "/services/collector/") {
        base.append("/services/collector/event");
    }
    Ok(base)
}

/// Normalizing a URL that was normalized changes nothing.
pub proof fn lemma_hec_url_is_stable(endpoint: Seq<char>)
    ensures
        hec_url(hec_url(endpoint)) == hec_url(endpoint),
{
    let base = trim_end_char(endpoint, '/');
    let path = "/services/collector/event"@;
    let mark = "/services/collector/"@;
    lemma_trimmed(endpoint);
    if contains(base, mark) {
        lemma_no_trim(base);
    } else {
        let url = base + path;
        reveal_strlit("/services/collector/event");
        reveal_strlit("/services/collector/");
        assert(url.last() == 't');
        lemma_no_trim(url);
        assert(url.subrange(base.len() as int, (base.len() + mark.len()) as int) =~= mark);
        assert(occurs_at(url, mark, base.len() as int));
    }
}

/// A trimmed text does not end with a slash.
pub proof fn lemma_trimmed(s: Seq<char>)
    ensures
        trim_end_char(s, '/').len() > 0 ==> trim_end_char(s, '/').last() != '/',
    decreases s.len(),
{
    if s.len() > 0 && s.last() == '/' {
        lemma_trimmed(s.drop_last());
    }
}

/// A text that does not end with a slash is not trimmed.
pub proof fn lemma_no_trim(s: Seq<char>)
    requires
        s.len() > 0 ==> s.last() != '/',
    ensures
        trim_end_char(s, '/') == s,
{
}

// ---------------------------------------------------------------------------
// Responses
// ---------------------------------------------------------------------------

/// The codes in a reply: one per item of a list, or one of an object. A code
/// that is missing, or no integer, counts as none.
pub enum Reply {
    List(Vec<Option<i64>>),
    Object(Option<i64>),
    /// Neither a list nor an object, or not JSON at all.
    Other,
}

/// A [`Reply`], with its list.
pub enum ReplyView {
    List(Seq<Option<i64>>),
    Object(Option<i64>),
    Other,
}

impl View for Reply {
    type V = ReplyView;

    open spec fn view(&self) -> ReplyView {
        match self {
            Reply::List(codes) => ReplyView::List(codes@),
            Reply::Object(code) => ReplyView::Object(*code),
            Reply::Other => ReplyView::Other,
        }
    }
}

/// The code among the fields of an object.
pub open spec fn code_of(e: Seq<(Seq<char>, FieldView)>) -> Option<i64> {
    match field_of(e, "code"@) {
        Some(FieldView::Number(text)) => integer_value(text),
        _ => None,
    }
}

/// The codes in a reply.
pub open spec fn reply_of(v: Result<JsonView, Seq<char>>) -> ReplyView {
    match v {
        Ok(JsonView::List(items)) => ReplyView::List(
            items.map_values(
                |i: Option<Seq<(Seq<char>, FieldView)>>|
                    match i {
                        Some(e) => code_of(e),
                        None => None,
                    },
            ),
        ),
        Ok(JsonView::Object(e)) => ReplyView::Object(code_of(e)),
        _ => ReplyView::Other,
    }
}

fn read_code(m: &JsonMap<String, JsonValue>) -> (r: Option<i64>)
    ensures
        r == code_of(json_entries(*m)),
{
    let e = entries(m);
    match find_key(&e, "code") {
        Some(i) => match &e[i].1 {
            Field::Number { text, double, integer } => *integer,
            _ => None,
        },
        None => None,
    }
}

/// The codes in the text of a reply.
pub fn read_reply(text: &str) -> (r: Reply)
    ensures
        r@ == reply_of(json_value(text@)),
{
    match parse_json(text) {
        Ok(Json::List(items)) => {
            let mut codes: Vec<Option<i64>> = Vec::new();
            let mut i: usize = 0;
            let ghost want = reply_of(json_value(text@))->List_0;
            while i < items.len()
                invariant
                    i <= items@.len(),
                    want == reply_of(Ok(Json::List(items)@))->List_0,
                    codes@ == want.take(i as int),
                decreases items@.len() - i,
            {
                let code: Option<i64> = match &items[i] {
                    Some(m) => read_code(m),
                    None => None,
                };
                codes.push(code);
                assert(want.take(i + 1) =~= want.take(i as int).push(code));
                i += 1;
            }
            assert(want.take(items@.len() as int) =~= want);
            Reply::List(codes)
        },
        Ok(Json::Object(m)) => Reply::Object(read_code(&m)),
        _ => Reply::Other,
    }
}

/// How many of the first `n` codes report success.
pub open spec fn accepted(codes: Seq<Option<i64>>, n: int) -> int
    decreases n,
{
    if n <= 0 {
        0
    } else {
        accepted(codes, n - 1) + if codes[n - 1] == Some(0i64) {
            1int
        } else {
            0
        }
    }
}

/// Delivered and rejected events by a reply to a batch of `n`: a list has one
/// code per event, an object one for all, and a reply that is neither counts as
/// delivered.
pub open spec fn tally_of(reply: ReplyView, n: int) -> (int, int) {
    match reply {
        ReplyView::List(codes) => (
            accepted(codes, codes.len() as int),
            codes.len() - accepted(codes, codes.len() as int),
        ),
        ReplyView::Object(code) => if code is None || code == Some(0i64) {
            (n, 0)
        } else {
            (0, n)
        },
        ReplyView::Other => (n, 0),
    }
}

/// `r` is the outcome of a batch of `n` events, of `bytes` bytes, by a reply to
/// it.
pub open spec fn reply_is(r: BatchResult, reply: ReplyView, n: u64, bytes: u64) -> bool {
    let (succeeded, failed) = tally_of(reply, n as int);
    result_is(
        r,
        succeeded,
        failed,
        bytes as int,
        false,
        false,
        None,
        if failed > 0 {
            Some("HEC rejected some events"@)
        } else {
            None
        },
    )
}

/// The outcome of a batch by the codes of a reply to it.
pub fn tally(reply: &Reply, n: u64, bytes: u64) -> (r: BatchResult)
    ensures
        reply_is(r, reply@, n, bytes),
{
    let (succeeded, failed): (u64, u64) = match reply {
        Reply::List(codes) => {
            let mut ok: u64 = 0;
            let mut i: usize = 0;
            while i < codes.len()
                invariant
                    i <= codes@.len(),
                    ok == accepted(codes@, i as int),
                    ok <= i,
                decreases codes@.len() - i,
            {
                if let Some(c) = codes[i] {
                    if c == 0 {
                        ok = ok + 1;
                    }
                }
                i += 1;
            }
            (ok, codes.len() as u64 - ok)
        },
        Reply::Object(code) => match code {
            Some(c) => if *c == 0 {
                (n, 0)
            } else {
                (0, n)
            },
            None => (n, 0),
        },
        Reply::Other => (n, 0),
    };
    let reason = if failed > 0 {
        Some("HEC rejected some events".to_owned())
    } else {
        None
    };
    BatchResult {
        succeeded,
        failed,
        bytes,
        retryable: false,
        auth_error: false,
        retry_after: None,
        reason,
    }
}

/// Of a list of codes, each is counted once: the delivered and the rejected
/// events are as many as there are codes; otherwise they are the batch.
pub proof fn lemma_tally_is_complete(reply: ReplyView, n: int)
    requires
        0 <= n,
    ensures
        ({
            let (ok, bad) = tally_of(reply, n);
            &&& 0 <= ok && 0 <= bad
            &&& ok + bad == (match reply {
                ReplyView::List(codes) => codes.len() as int,
                _ => n,
            })
        }),
{
    if let ReplyView::List(codes) = reply {
        lemma_accepted_bounds(codes, codes.len() as int);
    }
}

proof fn lemma_accepted_bounds(codes: Seq<Option<i64>>, n: int)
    requires
        0 <= n,
    ensures
        0 <= accepted(codes, n) <= n,
    decreases n,
{
    if n > 0 {
        lemma_accepted_bounds(codes, n - 1);
    }
}

/// The outcome of a batch of `n` events, of `bytes` bytes, by the response to
/// it.
pub fn response(status: u16, retry_after: Option<u64>, text: &str, n: u64, bytes: u64) -> (r:
    BatchResult)
    ensures
        if success_status(status) {
            reply_is(r, reply_of(json_value(text@)), n, bytes)
        } else {
            refusal_is(r, status, retry_after, n, "unexpected HTTP "@, ""@)
        },
{
    match refusal(status, retry_after, n, "unexpected HTTP ", "") {
        Some(r) => r,
        None => tally(&read_reply(text), n, bytes),
    }
}

/// The outcome of a batch that could not be sent.
pub fn network_failure(timed_out: bool, message: &str, n: u64) -> (r: BatchResult)
    requires
        !timed_out ==> cuttable(message@),
    ensures
        if timed_out {
            result_is(r, 0, n as int, 0, true, false, None, Some("request timed out"@))
        } else {
            exists|m: Seq<char>| #[trigger]
                sanitized(m, message@) && result_is(r, 0, n as int, 0, true, false, None, Some(m))
        },
{
    if timed_out {
        return BatchResult::none(n, true, "request timed out");
    }
    let m = sanitize(message);
    assert(sanitized(m@, message@));
    BatchResult::none(n, true, m.as_str())
}

/// The bytes that are kept of a message.
pub const MAX_MESSAGE: usize = 300;

/// The message is short, or it can be cut between two characters.
pub open spec fn cuttable(msg: Seq<char>) -> bool {
    encode_utf8(msg).len() > MAX_MESSAGE ==> is_char_boundary(encode_utf8(msg), MAX_MESSAGE as int)
}

/// `r` is the message, cut to the bytes that are kept.
pub open spec fn sanitized(r: Seq<char>, msg: Seq<char>) -> bool {
    encode_utf8(r) == if encode_utf8(msg).len() > MAX_MESSAGE {
        encode_utf8(msg).take(MAX_MESSAGE as int)
    } else {
        encode_utf8(msg)
    }
}

/// Truncates potentially noisy network errors.
pub fn sanitize(msg: &str) -> (r: String)
    requires
        cuttable(msg@),
    ensures
        sanitized(r@, msg@),
{
    if msg.as_bytes().len() > MAX_MESSAGE {
        let (head, _tail) = msg.split_at(MAX_MESSAGE);
        assert(encode_utf8(head@) =~= encode_utf8(msg@).take(MAX_MESSAGE as int));
        head.to_owned()
    } else {
        msg.to_owned()
    }
}

} // verus!
