//! Statistics counters and run summaries.

use vstd::prelude::*;

use crate::config::{mode_label, mode_name, SimMode};
use crate::text::{decimal, push_decimal};

verus! {

broadcast use vstd::string::group_string_axioms;

/// Counters of a run. They wrap around at the limit of 64 bits.
#[derive(Debug, Clone, Copy)]
pub struct Stats {
    counts: Snapshot,
}

/// The counters at one moment.
#[derive(Debug, Clone, Copy, PartialEq, Eq, Structural)]
pub struct Snapshot {
    pub requested: u64,
    pub generated: u64,
    pub sent: u64,
    pub failed: u64,
    pub retried: u64,
    pub ts_detected: u64,
    pub ts_year_inferred: u64,
    pub malformed_lines: u64,
    pub encoding_errors: u64,
    pub bytes_sent: u64,
}

impl View for Stats {
    type V = Snapshot;

    closed spec fn view(&self) -> Snapshot {
        self.counts
    }
}

/// The sum of two counts, with wrap-around.
pub open spec fn counted(a: u64, n: u64) -> u64 {
    ((a + n) % 0x1_0000_0000_0000_0000) as u64
}

/// The counters at the start of a run: zero, but for the requested events.
pub open spec fn fresh(requested: u64) -> Snapshot {
    Snapshot {
        requested,
        generated: 0,
        sent: 0,
        failed: 0,
        retried: 0,
        ts_detected: 0,
        ts_year_inferred: 0,
        malformed_lines: 0,
        encoding_errors: 0,
        bytes_sent: 0,
    }
}

/// What is added to counters: events, and with them bytes or inferred years.
pub enum Addition {
    Requested(u64),
    Generated(u64),
    Sent(u64, u64),
    Failed(u64),
    Retried(u64),
    Detected(u64, u64),
    Malformed(u64),
    EncodingErrors(u64),
}

/// The counters after an addition.
pub open spec fn after_adding(s: Snapshot, a: Addition) -> Snapshot {
    match a {
        Addition::Requested(n) => Snapshot { requested: counted(s.requested, n), ..s },
        Addition::Generated(n) => Snapshot { generated: counted(s.generated, n), ..s },
        Addition::Sent(n, bytes) => Snapshot {
            sent: counted(s.sent, n),
            bytes_sent: counted(s.bytes_sent, bytes),
            ..s
        },
        Addition::Failed(n) => Snapshot { failed: counted(s.failed, n), ..s },
        Addition::Retried(n) => Snapshot { retried: counted(s.retried, n), ..s },
        Addition::Detected(n, inferred) => Snapshot {
            ts_detected: counted(s.ts_detected, n),
            ts_year_inferred: counted(s.ts_year_inferred, inferred),
            ..s
        },
        Addition::Malformed(n) => Snapshot { malformed_lines: counted(s.malformed_lines, n), ..s },
        Addition::EncodingErrors(n) => Snapshot {
            encoding_errors: counted(s.encoding_errors, n),
            ..s
        },
    }
}

fn plus(a: u64, n: u64) -> (r: u64)
    ensures
        r == counted(a, n),
{
    a.wrapping_add(n)
}

impl Stats {
    /// All counters at zero but the number of requested events.
    pub fn new(requested: u64) -> (r: Stats)
        ensures
            r@ == fresh(requested),
    {
        Stats {
            counts: Snapshot {
                requested,
                generated: 0,
                sent: 0,
                failed: 0,
                retried: 0,
                ts_detected: 0,
                ts_year_inferred: 0,
                malformed_lines: 0,
                encoding_errors: 0,
                bytes_sent: 0,
            },
        }
    }

    pub fn requested(&self) -> (r: u64)
        ensures
            r == self@.requested,
    {
        self.counts.requested
    }

    pub fn add_requested(&mut self, n: u64)
        ensures
            final(self)@ == after_adding(old(self)@, Addition::Requested(n)),
    {
        self.counts.requested = plus(self.counts.requested, n);
    }

    pub fn add_generated(&mut self, n: u64)
        ensures
            final(self)@ == after_adding(old(self)@, Addition::Generated(n)),
    {
        self.counts.generated = plus(self.counts.generated, n);
    }

    pub fn add_sent(&mut self, n: u64, bytes: u64)
        ensures
            final(self)@ == after_adding(old(self)@, Addition::Sent(n, bytes)),
    {
        self.counts.sent = plus(self.counts.sent, n);
        self.counts.bytes_sent = plus(self.counts.bytes_sent, bytes);
    }

    pub fn add_failed(&mut self, n: u64)
        ensures
            final(self)@ == after_adding(old(self)@, Addition::Failed(n)),
    {
        self.counts.failed = plus(self.counts.failed, n);
    }

    pub fn add_retried(&mut self, n: u64)
        ensures
            final(self)@ == after_adding(old(self)@, Addition::Retried(n)),
    {
        self.counts.retried = plus(self.counts.retried, n);
    }

    pub fn add_ts_detected(&mut self, n: u64, year_inferred: u64)
        ensures
            final(self)@ == after_adding(old(self)@, Addition::Detected(n, year_inferred)),
    {
        self.counts.ts_detected = plus(self.counts.ts_detected, n);
        self.counts.ts_year_inferred = plus(self.counts.ts_year_inferred, year_inferred);
    }

    pub fn add_malformed(&mut self, n: u64)
        ensures
            final(self)@ == after_adding(old(self)@, Addition::Malformed(n)),
    {
        self.counts.malformed_lines = plus(self.counts.malformed_lines, n);
    }

    pub fn add_encoding_errors(&mut self, n: u64)
        ensures
            final(self)@ == after_adding(old(self)@, Addition::EncodingErrors(n)),
    {
        self.counts.encoding_errors = plus(self.counts.encoding_errors, n);
    }

    pub fn generated(&self) -> (r: u64)
        ensures
            r == self@.generated,
    {
        self.counts.generated
    }

    pub fn sent(&self) -> (r: u64)
        ensures
            r == self@.sent,
    {
        self.counts.sent
    }

    pub fn failed(&self) -> (r: u64)
        ensures
            r == self@.failed,
    {
        self.counts.failed
    }

    pub fn snapshot(&self) -> (r: Snapshot)
        ensures
            r == self@,
    {
        self.counts
    }
}

// ---------------------------------------------------------------------------
// Many additions
// ---------------------------------------------------------------------------

/// The counters after additions, one after the other.
pub open spec fn after_all(s: Snapshot, adds: Seq<Addition>) -> Snapshot
    decreases adds.len(),
{
    if adds.len() == 0 {
        s
    } else {
        after_adding(after_all(s, adds.drop_last()), adds.last())
    }
}

/// Amounts for the counters.
pub struct Amounts {
    pub requested: int,
    pub generated: int,
    pub sent: int,
    pub failed: int,
    pub retried: int,
    pub ts_detected: int,
    pub ts_year_inferred: int,
    pub malformed_lines: int,
    pub encoding_errors: int,
    pub bytes_sent: int,
}

pub open spec fn nothing() -> Amounts {
    Amounts {
        requested: 0,
        generated: 0,
        sent: 0,
        failed: 0,
        retried: 0,
        ts_detected: 0,
        ts_year_inferred: 0,
        malformed_lines: 0,
        encoding_errors: 0,
        bytes_sent: 0,
    }
}

/// What one addition adds.
pub open spec fn amounts_of(a: Addition) -> Amounts {
    match a {
        Addition::Requested(n) => Amounts { requested: n as int, ..nothing() },
        Addition::Generated(n) => Amounts { generated: n as int, ..nothing() },
        Addition::Sent(n, bytes) => Amounts {
            sent: n as int,
            bytes_sent: bytes as int,
            ..nothing()
        },
        Addition::Failed(n) => Amounts { failed: n as int, ..nothing() },
        Addition::Retried(n) => Amounts { retried: n as int, ..nothing() },
        Addition::Detected(n, inferred) => Amounts {
            ts_detected: n as int,
            ts_year_inferred: inferred as int,
            ..nothing()
        },
        Addition::Malformed(n) => Amounts { malformed_lines: n as int, ..nothing() },
        Addition::EncodingErrors(n) => Amounts { encoding_errors: n as int, ..nothing() },
    }
}

pub open spec fn sum(a: Amounts, b: Amounts) -> Amounts {
    Amounts {
        requested: a.requested + b.requested,
        generated: a.generated + b.generated,
        sent: a.sent + b.sent,
        failed: a.failed + b.failed,
        retried: a.retried + b.retried,
        ts_detected: a.ts_detected + b.ts_detected,
        ts_year_inferred: a.ts_year_inferred + b.ts_year_inferred,
        malformed_lines: a.malformed_lines + b.malformed_lines,
        encoding_errors: a.encoding_errors + b.encoding_errors,
        bytes_sent: a.bytes_sent + b.bytes_sent,
    }
}

/// What additions add together.
pub open spec fn total(adds: Seq<Addition>) -> Amounts
    decreases adds.len(),
{
    if adds.len() == 0 {
        nothing()
    } else {
        sum(total(adds.drop_last()), amounts_of(adds.last()))
    }
}

/// A count that has grown by an amount, with wrap-around.
#[verifier::opaque]
pub open spec fn grown(count: u64, amount: int) -> int {
    (count + amount) % 0x1_0000_0000_0000_0000
}

/// `t` are the counters of `s` after they have grown by the amounts.
pub open spec fn has_grown(s: Snapshot, t: Snapshot, by: Amounts) -> bool {
    &&& t.requested == grown(s.requested, by.requested)
    &&& t.generated == grown(s.generated, by.generated)
    &&& t.sent == grown(s.sent, by.sent)
    &&& t.failed == grown(s.failed, by.failed)
    &&& t.retried == grown(s.retried, by.retried)
    &&& t.ts_detected == grown(s.ts_detected, by.ts_detected)
    &&& t.ts_year_inferred == grown(s.ts_year_inferred, by.ts_year_inferred)
    &&& t.malformed_lines == grown(s.malformed_lines, by.malformed_lines)
    &&& t.encoding_errors == grown(s.encoding_errors, by.encoding_errors)
    &&& t.bytes_sent == grown(s.bytes_sent, by.bytes_sent)
}

/// Growing by nothing, on by more, and within the limit of 64 bits.
pub proof fn lemma_grown(count: u64, amount: int, n: u64)
    ensures
        grown(count, 0) == count,
        grown(count, amount + 0) == grown(count, amount),
        0 <= grown(count, amount) <= u64::MAX,
        counted(grown(count, amount) as u64, n) == grown(count, amount + n),
        0 <= count + amount <= u64::MAX ==> grown(count, amount) == count + amount,
{
    reveal(grown);
}

proof fn lemma_has_grown(s: Snapshot, t: Snapshot, by: Amounts, a: Addition)
    requires
        has_grown(s, t, by),
    ensures
        has_grown(s, after_adding(t, a), sum(by, amounts_of(a))),
{
    match a {
        Addition::Requested(n) => lemma_grown(s.requested, by.requested, n),
        Addition::Generated(n) => lemma_grown(s.generated, by.generated, n),
        Addition::Sent(n, bytes) => {
            lemma_grown(s.sent, by.sent, n);
            lemma_grown(s.bytes_sent, by.bytes_sent, bytes);
        },
        Addition::Failed(n) => lemma_grown(s.failed, by.failed, n),
        Addition::Retried(n) => lemma_grown(s.retried, by.retried, n),
        Addition::Detected(n, inferred) => {
            lemma_grown(s.ts_detected, by.ts_detected, n);
            lemma_grown(s.ts_year_inferred, by.ts_year_inferred, inferred);
        },
        Addition::Malformed(n) => lemma_grown(s.malformed_lines, by.malformed_lines, n),
        Addition::EncodingErrors(n) => lemma_grown(s.encoding_errors, by.encoding_errors, n),
    }
}

/// Each counter grows by the sum of what is added to it.
pub proof fn lemma_counters_are_sums(s: Snapshot, adds: Seq<Addition>)
    ensures
        has_grown(s, after_all(s, adds), total(adds)),
    decreases adds.len(),
{
    if adds.len() > 0 {
        lemma_counters_are_sums(s, adds.drop_last());
        lemma_has_grown(
            s,
            after_all(s, adds.drop_last()),
            total(adds.drop_last()),
            adds.last(),
        );
    } else {
        reveal(grown);
    }
}

pub proof fn lemma_total_adds_up(a: Seq<Addition>, b: Seq<Addition>)
    ensures
        total(a + b) == sum(total(a), total(b)),
    decreases b.len(),
{
    if b.len() == 0 {
        assert(a + b =~= a);
    } else {
        assert((a + b).drop_last() =~= a + b.drop_last());
        lemma_total_adds_up(a, b.drop_last());
    }
}

proof fn lemma_total_without(adds: Seq<Addition>, i: int)
    requires
        0 <= i < adds.len(),
    ensures
        total(adds) == sum(total(adds.remove(i)), amounts_of(adds[i])),
{
    let l = adds.take(i);
    let r = adds.skip(i + 1);
    let m = seq![adds[i]];
    assert(adds =~= l + m + r);
    assert(adds.remove(i) =~= l + r);
    lemma_total_adds_up(l + m, r);
    lemma_total_adds_up(l, m);
    lemma_total_adds_up(l, r);
    assert(m.drop_last() =~= Seq::empty());
    assert(total(m) == sum(total(m.drop_last()), amounts_of(adds[i])));
}

proof fn lemma_total_of_any_order(a: Seq<Addition>, b: Seq<Addition>)
    requires
        a.to_multiset() == b.to_multiset(),
    ensures
        total(a) == total(b),
    decreases a.len(),
{
    broadcast use vstd::seq_lib::group_to_multiset_ensures;

    assert(a.len() == a.to_multiset().len());
    assert(b.len() == b.to_multiset().len());
    if a.len() > 0 {
        let last = a.len() - 1;
        let x = a.last();
        assert(a.contains(x));
        assert(b.to_multiset().count(x) > 0);
        assert(b.contains(x));
        let i = choose|i: int| 0 <= i < b.len() && b[i] == x;
        assert(a.remove(last) =~= a.drop_last());
        lemma_total_of_any_order(a.drop_last(), b.remove(i));
        lemma_total_without(b, i);
    }
}

/// The order of additions does not matter: whoever adds first, the counters end
/// up the same.
pub proof fn lemma_order_does_not_matter(s: Snapshot, a: Seq<Addition>, b: Seq<Addition>)
    requires
        a.to_multiset() == b.to_multiset(),
    ensures
        after_all(s, a) == after_all(s, b),
{
    lemma_total_of_any_order(a, b);
    lemma_counters_are_sums(s, a);
    lemma_counters_are_sums(s, b);
}

// ---------------------------------------------------------------------------
// What the summary of a run warns of
// ---------------------------------------------------------------------------

/// Generated events in which no timestamp was detected.
pub open spec fn undetected(s: Snapshot) -> int {
    if s.generated >= s.ts_detected {
        s.generated - s.ts_detected
    } else {
        0
    }
}

/// Detection found a timestamp in too few of the generated events to make a
/// synthetic run look recent.
pub open spec fn coverage_is_low(s: Snapshot, mode: SimMode) -> bool {
    mode == SimMode::SyntheticToday && undetected(s) > s.generated / 2
}

pub open spec fn failed_warning(s: Snapshot) -> Seq<char> {
    decimal(s.failed as int) + " events failed"@
}

pub open spec fn coverage_warning(s: Snapshot) -> Seq<char> {
    "timestamp detection coverage low: "@ + decimal(s.ts_detected as int) + " / "@ + decimal(
        s.generated as int,
    ) + " events"@
}

/// The warnings of a run: failed events, then low detection coverage.
pub open spec fn warnings_of(s: Snapshot, mode: SimMode) -> Seq<Seq<char>> {
    let w = if s.failed > 0 {
        seq![failed_warning(s)]
    } else {
        seq![]
    };
    if coverage_is_low(s, mode) {
        w.push(coverage_warning(s))
    } else {
        w
    }
}

/// The texts of strings.
pub open spec fn texts(v: Seq<String>) -> Seq<Seq<char>> {
    v.map_values(|s: String| s@)
}

/// The warnings of a run.
pub fn run_warnings(s: &Snapshot, mode: SimMode) -> (r: Vec<String>)
    ensures
        texts(r@) == warnings_of(*s, mode),
{
    let mut out: Vec<String> = Vec::new();
    if s.failed > 0 {
        let mut w = String::new();
        push_decimal(&mut w, s.failed);
        w.append(" events failed");
        assert(w@ =~= failed_warning(*s));
        out.push(w);
    }
    let missed: u64 = if s.generated >= s.ts_detected {
        s.generated - s.ts_detected
    } else {
        0
    };
    if mode == SimMode::SyntheticToday && missed > s.generated / 2 {
        let mut w = String::new();
        w.append("timestamp detection coverage low: ");
        push_decimal(&mut w, s.ts_detected);
        w.append(" / ");
        push_decimal(&mut w, s.generated);
        w.append(" events");
        assert(w@ =~= coverage_warning(*s));
        out.push(w);
    }
    assert(texts(out@) =~= warnings_of(*s, mode));
    out
}

/// Exit code of a run: 0 normal (partial failures are reported in the
/// summary), 2 when it was aborted by repeated send failures or a signal.
pub fn exit_code(aborted: bool) -> (r: i32)
    ensures
        r == if aborted {
            2int
        } else {
            0
        },
{
    if aborted {
        2
    } else {
        0
    }
}

/// What is reported of a run, but for its duration.
pub struct Summary {
    pub snapshot: Snapshot,
    pub mode: String,
    pub transport: String,
    pub endpoint: Option<String>,
    pub seed: Option<u64>,
    pub warnings: Vec<String>,
    pub aborted: bool,
}

impl Summary {
    /// The summary of a run over the transport.
    pub fn new(
        snapshot: Snapshot,
        mode: SimMode,
        transport: &str,
        seed: u64,
        aborted: bool,
    ) -> (r: Summary)
        ensures
            r.snapshot == snapshot,
            r.mode@ == mode_label(mode),
            r.transport@ == transport@,
            r.endpoint is None,
            r.seed == Some(seed),
            texts(r.warnings@) == warnings_of(snapshot, mode),
            r.aborted == aborted,
    {
        Summary {
            snapshot,
            mode: mode_name(mode).to_owned(),
            transport: transport.to_owned(),
            endpoint: None,
            seed: Some(seed),
            warnings: run_warnings(&snapshot, mode),
            aborted,
        }
    }
}

/// The text of a seed; a run without one has `auto`.
pub open spec fn seed_text(seed: Option<u64>) -> Seq<char> {
    match seed {
        Some(s) => decimal(s as int),
        None => "auto"@,
    }
}

/// The lines of warnings from the `i`th on.
pub open spec fn warning_lines(w: Seq<Seq<char>>, i: int) -> Seq<char>
    decreases w.len() - i,
{
    if i < 0 || i >= w.len() {
        Seq::empty()
    } else {
        "warning: "@ + w[i] + "\n"@ + warning_lines(w, i + 1)
    }
}

/// The block of a summary, with the texts of its duration and its rate.
pub open spec fn summary_block(s: Summary, elapsed: Seq<char>, rate: Seq<char>) -> Seq<char> {
    "──────────────────────────────────────────\nLogpushi\n──────────────────────────────────────────\nMode:              "@
        + s.mode@ + "\nTransport:         "@ + s.transport@ + "\nEndpoint:          "@ + (
    match s.endpoint {
        Some(e) => e@,
        None => "-"@,
    }) + "\nSeed:              "@ + seed_text(s.seed) + "\nEvents requested:  "@ + decimal(
        s.snapshot.requested as int,
    ) + "\nEvents generated:  "@ + decimal(s.snapshot.generated as int)
        + "\nEvents sent:       "@ + decimal(s.snapshot.sent as int) + "\nEvents failed:     "@
        + decimal(s.snapshot.failed as int) + "\nEvents retried:    "@ + decimal(
        s.snapshot.retried as int,
    ) + "\nTimestamps detected: "@ + decimal(s.snapshot.ts_detected as int)
        + "\nBytes sent:        "@ + decimal(s.snapshot.bytes_sent as int)
        + "\nElapsed:           "@ + elapsed + "\nRate:              "@ + rate
        + " events/s\n──────────────────────────────────────────\n"@
}

fn push_seed(out: &mut String, seed: Option<u64>)
    ensures
        final(out)@ == old(out)@ + seed_text(seed),
{
    match seed {
        Some(s) => push_decimal(out, s),
        None => out.append("auto"),
    }
}

fn push_warnings(out: &mut String, w: &Vec<String>)
    ensures
        final(out)@ == old(out)@ + warning_lines(texts(w@), 0),
{
    let mut i: usize = 0;
    assert(out@ + warning_lines(texts(w@), 0) =~= old(out)@ + warning_lines(texts(w@), 0));
    while i < w.len()
        invariant
            i <= w@.len(),
            out@ + warning_lines(texts(w@), i as int) == old(out)@ + warning_lines(texts(w@), 0),
        decreases w@.len() - i,
    {
        let ghost before = out@;
        out.append("warning: ");
        out.append(w[i].as_str());
        out.append("\n");
        assert(texts(w@)[i as int] == w@[i as int]@);
        assert(out@ + warning_lines(texts(w@), i + 1) =~= before + warning_lines(
            texts(w@),
            i as int,
        ));
        i += 1;
    }
    assert(out@ + warning_lines(texts(w@), w@.len() as int) =~= out@);
}

/// The printed form of a summary, given the texts of its duration and its rate.
pub fn summary_text(sum: &Summary, elapsed: &str, rate: &str) -> (r: String)
    ensures
        r@ == summary_block(*sum, elapsed@, rate@) + warning_lines(texts(sum.warnings@), 0),
{
    let mut out = String::new();
    out.append(
        "──────────────────────────────────────────\nLogpushi\n──────────────────────────────────────────\nMode:              ",
    );
    out.append(sum.mode.as_str());
    out.append("\nTransport:         ");
    out.append(sum.transport.as_str());
    out.append("\nEndpoint:          ");
    match &sum.endpoint {
        Some(e) => out.append(e.as_str()),
        None => out.append("-"),
    }
    out.append("\nSeed:              ");
    push_seed(&mut out, sum.seed);
    out.append("\nEvents requested:  ");
    push_decimal(&mut out, sum.snapshot.requested);
    out.append("\nEvents generated:  ");
    push_decimal(&mut out, sum.snapshot.generated);
    out.append("\nEvents sent:       ");
    push_decimal(&mut out, sum.snapshot.sent);
    out.append("\nEvents failed:     ");
    push_decimal(&mut out, sum.snapshot.failed);
    out.append("\nEvents retried:    ");
    push_decimal(&mut out, sum.snapshot.retried);
    out.append("\nTimestamps detected: ");
    push_decimal(&mut out, sum.snapshot.ts_detected);
    out.append("\nBytes sent:        ");
    push_decimal(&mut out, sum.snapshot.bytes_sent);
    out.append("\nElapsed:           ");
    out.append(elapsed);
    out.append("\nRate:              ");
    out.append(rate);
    out.append(" events/s\n──────────────────────────────────────────\n");
    assert(out@ =~= summary_block(*sum, elapsed@, rate@));
    push_warnings(&mut out, &sum.warnings);
    out
}

/// The lines of a report, with the texts of its byte count, its duration and its
/// rate.
pub open spec fn report_lines(
    s: Summary,
    bytes: Seq<char>,
    elapsed: Seq<char>,
    rate: Seq<char>,
) -> Seq<char> {
    let lines = "Logpushi summary\n----------------------------------------\nMode:              "@
        + s.mode@ + "\nTransport:         "@ + s.transport@ + "\n Seed:              "@
        + seed_text(s.seed) + "\nEvents requested:  "@ + decimal(s.snapshot.requested as int)
        + "\nEvents generated:  "@ + decimal(s.snapshot.generated as int)
        + "\nEvents sent:       "@ + decimal(s.snapshot.sent as int) + "\nEvents failed:     "@
        + decimal(s.snapshot.failed as int) + "\nEvents retried:    "@ + decimal(
        s.snapshot.retried as int,
    ) + "\nTimestamps detected: "@ + decimal(s.snapshot.ts_detected as int)
        + "\nYear inferred:     "@ + decimal(s.snapshot.ts_year_inferred as int)
        + "\nMalformed lines:   "@ + decimal(s.snapshot.malformed_lines as int)
        + "\nEncoding errors:   "@ + decimal(s.snapshot.encoding_errors as int)
        + "\nBytes sent:        "@ + bytes + "\nElapsed:           "@ + elapsed
        + "s\nRate:              "@ + rate + " events/sec\n"@;
    if s.aborted {
        lines + "Status:            ABORTED\n"@
    } else {
        lines
    }
}

/// The report of a run, given the texts of its byte count, its duration and its
/// rate.
pub fn report_text(sum: &Summary, bytes: &str, elapsed: &str, rate: &str) -> (r: String)
    ensures
        r@ == report_lines(*sum, bytes@, elapsed@, rate@) + warning_lines(
            texts(sum.warnings@),
            0,
        ),
{
    let mut out = String::new();
    out.append(
        "Logpushi summary\n----------------------------------------\nMode:              ",
    );
    out.append(sum.mode.as_str());
    out.append("\nTransport:         ");
    out.append(sum.transport.as_str());
    out.append("\n Seed:              ");
    push_seed(&mut out, sum.seed);
    out.append("\nEvents requested:  ");
    push_decimal(&mut out, sum.snapshot.requested);
    out.append("\nEvents generated:  ");
    push_decimal(&mut out, sum.snapshot.generated);
    out.append("\nEvents sent:       ");
    push_decimal(&mut out, sum.snapshot.sent);
    out.append("\nEvents failed:     ");
    push_decimal(&mut out, sum.snapshot.failed);
    out.append("\nEvents retried:    ");
    push_decimal(&mut out, sum.snapshot.retried);
    out.append("\nTimestamps detected: ");
    push_decimal(&mut out, sum.snapshot.ts_detected);
    out.append("\nYear inferred:     ");
    push_decimal(&mut out, sum.snapshot.ts_year_inferred);
    out.append("\nMalformed lines:   ");
    push_decimal(&mut out, sum.snapshot.malformed_lines);
    out.append("\nEncoding errors:   ");
    push_decimal(&mut out, sum.snapshot.encoding_errors);
    out.append("\nBytes sent:        ");
    out.append(bytes);
    out.append("\nElapsed:           ");
    out.append(elapsed);
    out.append("s\nRate:              ");
    out.append(rate);
    out.append(" events/sec\n");
    if sum.aborted {
        out.append("Status:            ABORTED\n");
    }
    assert(out@ =~= report_lines(*sum, bytes@, elapsed@, rate@));
    push_warnings(&mut out, &sum.warnings);
    out
}

} // verus!
