//! What is told to whoever runs the program: messages, the echo of the
//! configuration, lists and summaries.

use vstd::prelude::*;

use crate::config::{described, mode_label, shown_endpoint, transport_label, Config};
use crate::discovery::{DiscoveryError, LogFile};
use crate::formats::DetectedFormat;
use crate::inventory::{
    coverage_header, coverage_line, inventory_line, left, right, Coverage, Inventory,
};
use crate::sampling::SampleError;
use crate::settings::{message_of, ConfigErrorView};
use crate::stats::{report_lines, seed_text, summary_block, Summary};
use crate::text::{contains, decimal, debug_text, ends_with, occurs_at, starts_with, IntProblem};

verus! {

broadcast use vstd::string::group_string_axioms;

// ---------------------------------------------------------------------------
// Names and messages
// ---------------------------------------------------------------------------

/// The formats go by names of their own.
pub proof fn lemma_format_names()
    ensures
        DetectedFormat::Iso.label() == "iso8601"@,
        DetectedFormat::ApacheCtf.label() == "apache-ctf"@,
        DetectedFormat::ApacheClf.label() == "apache-clf"@,
        DetectedFormat::Epoch.label() == "epoch"@,
        DetectedFormat::SyslogNoYear.label() == "syslog"@,
        DetectedFormat::HealthApp.label() == "health-app"@,
        DetectedFormat::Android.label() == "android"@,
        DetectedFormat::Proxifier.label() == "proxifier"@,
{
}

/// The text is the first part, the value and the last part.
pub open spec fn says_of(
    text: Seq<char>,
    first: Seq<char>,
    value: Seq<char>,
    last: Seq<char>,
) -> bool {
    text == first + value + last
}

/// A message about a setting names where it comes from, and what is wrong with it.
pub proof fn lemma_messages_name_the_setting(key: Seq<char>, value: Seq<char>, problem: Seq<char>)
    ensures
        starts_with(
            message_of(ConfigErrorView::EnvValue { key, value, problem }),
            "env "@ + key + "="@,
        ),
        ends_with(message_of(ConfigErrorView::EnvValue { key, value, problem }), ": "@ + problem),
        starts_with(
            message_of(ConfigErrorView::FileValue { key, problem }),
            "config file key "@ + debug_text(key),
        ),
        ends_with(message_of(ConfigErrorView::FileValue { key, problem }), ": "@ + problem),
{
    let m = message_of(ConfigErrorView::EnvValue { key, value, problem });
    let p = "env "@ + key + "="@;
    assert(m.subrange(0, p.len() as int) =~= p);
    let e = ": "@ + problem;
    assert(m.subrange(m.len() - e.len(), m.len() as int) =~= e);
    let f = message_of(ConfigErrorView::FileValue { key, problem });
    let q = "config file key "@ + debug_text(key);
    assert(f.subrange(0, q.len() as int) =~= q);
    assert(f.subrange(f.len() - e.len(), f.len() as int) =~= e);
}

/// Why a text is not a number.
pub proof fn lemma_number_problems()
    ensures
        IntProblem::Empty.label() == "cannot parse integer from empty string"@,
        IntProblem::InvalidDigit.label() == "invalid digit found in string"@,
        IntProblem::TooLarge.label() == "number too large to fit in target type"@,
{
}

/// A message about the corpus names the directory or the file.
pub proof fn lemma_messages_name_the_file(dir: String, problem: String)
    ensures
        says_of(
            DiscoveryError::MissingDir(dir).label(),
            "log directory "@,
            dir@,
            " does not exist"@,
        ),
        says_of(
            DiscoveryError::NotADirectory(dir).label(),
            "log directory "@,
            dir@,
            " is not a directory"@,
        ),
        DiscoveryError::Io(problem).label() == problem@,
        SampleError::NoFiles(dir).label() == "no eligible log files found under "@ + dir@,
        SampleError::FileRead(dir, problem).label() == "file "@ + dir@ + " is not readable: "@
            + problem@,
{
}

/// A message about a configuration that cannot be run names the option.
#[verifier::rlimit(40)]
pub proof fn lemma_messages_name_the_option(text: Seq<char>)
    ensures
        message_of(ConfigErrorView::NoWorkers) == "--workers must be >= 1"@,
        message_of(ConfigErrorView::NoBatchSize) == "--batch-size must be >= 1"@,
        message_of(ConfigErrorView::NoLines) == "--lines must be >= 1"@,
        message_of(ConfigErrorView::BadRate) == "--rate must be >= 0"@,
        message_of(ConfigErrorView::NotAnObject) == "config file must be a JSON object"@,
        starts_with(message_of(ConfigErrorView::NoEndpoint { otel: true }), "--transport otel"@),
        starts_with(message_of(ConfigErrorView::NoEndpoint { otel: false }), "--transport hec"@),
        starts_with(message_of(ConfigErrorView::NoToken), "--transport hec requires a token"@),
        message_of(ConfigErrorView::UnknownTransport { text }) == "unknown transport "@
            + debug_text(text) + " (expected otel|hec|stdout)"@,
        message_of(ConfigErrorView::UnknownStartOffset { text })
            == "--start-offset must be random|start, got "@ + debug_text(text),
        message_of(ConfigErrorView::UnknownProtocol { text }) == "unknown --otel-protocol "@
            + debug_text(text) + " (use http|grpc)"@,
        message_of(ConfigErrorView::UnknownWindow { text, usage: true })
            == "unknown recent-window "@ + debug_text(text) + " (use now|today|Ns|Nm|Nh|Nd)"@,
        message_of(ConfigErrorView::UnknownWindow { text, usage: false })
            == "unknown recent-window "@ + debug_text(text),
{
    reveal_strlit("--transport ");
    reveal_strlit("otel");
    reveal_strlit("hec");
    reveal_strlit("--transport otel");
    reveal_strlit("--transport hec");
    let o = message_of(ConfigErrorView::NoEndpoint { otel: true });
    assert(o.subrange(0, 16) =~= "--transport otel"@);
    let h = message_of(ConfigErrorView::NoEndpoint { otel: false });
    assert(h.subrange(0, 15) =~= "--transport hec"@);
    reveal_strlit(
        "--transport hec requires a token: set the LOGPUSHI_HEC_TOKEN environment variable",
    );
    reveal_strlit("--transport hec requires a token");
    let t = message_of(ConfigErrorView::NoToken);
    assert(t.subrange(0, 32) =~= "--transport hec requires a token"@);
}

// ---------------------------------------------------------------------------
// Columns
// ---------------------------------------------------------------------------

/// A text in a column is filled up with spaces: in front of it to the right, and
/// behind it to the left; one that is wider than the column stays as it is.
pub proof fn lemma_columns_are_filled(s: Seq<char>, width: int)
    ensures
        s.len() < width ==> right(s, width).len() == width && left(s, width).len() == width,
        s.len() >= width ==> right(s, width) == s && left(s, width) == s,
        s.len() < width ==> right(s, width).skip(width - s.len()) == s,
        s.len() < width ==> left(s, width).take(s.len() as int) == s,
        s.len() < width ==> forall|i: int|
            0 <= i < width - s.len() ==> #[trigger] right(s, width)[i] == ' ',
        s.len() < width ==> forall|i: int|
            s.len() <= i < width ==> #[trigger] left(s, width)[i] == ' ',
{
    if s.len() < width {
        assert(right(s, width).skip(width - s.len()) =~= s);
        assert(left(s, width).take(s.len() as int) =~= s);
    } else {
        assert(right(s, width) =~= s);
        assert(left(s, width) =~= s);
    }
}

/// The line of a file has its lines up to column 8, or a hyphen where they were
/// not counted, its bytes up to column 24, and its path from column 26 on.
#[verifier::rlimit(40)]
pub proof fn lemma_inventory_columns(f: LogFile, n: Option<u64>)
    requires
        decimal(f.size as int).len() <= 15,
        n is Some ==> decimal(n->0 as int).len() <= 8,
    ensures
        ({
            let line = inventory_line(f, n);
            &&& line.skip(26) == f.rel_path@
            &&& line.subrange(9, 24) == right(decimal(f.size as int), 15)
            &&& n is None ==> line.take(8) == right("-"@, 8)
            &&& n is Some ==> line.take(8) == right(decimal(n->0 as int), 8)
            &&& line[8] == ' ' && line[24] == ' ' && line[25] == ' '
        }),
{
    reveal_strlit("-");
    reveal_strlit(" ");
    reveal_strlit("  ");
    let line = inventory_line(f, n);
    lemma_columns_are_filled(decimal(f.size as int), 15);
    let count = match n {
        Some(k) => decimal(k as int),
        None => "-"@,
    };
    lemma_columns_are_filled(count, 8);
    assert(right(count, 8).len() == 8);
    assert(right(decimal(f.size as int), 15).len() == 15);
    assert(line.skip(26) =~= f.rel_path@);
    assert(line.subrange(9, 24) =~= right(decimal(f.size as int), 15));
    assert(line.take(8) =~= right(count, 8));
}

/// The headings stand over the columns that they name.
pub proof fn lemma_headings(i: Inventory, lines: String, coverage: String)
    requires
        call_ensures(Inventory::header, (&i,), lines),
        call_ensures(coverage_header, (), coverage),
    ensures
        lines@ == right("LINES"@, 8) + " "@ + right("BYTES"@, 15) + "  FILE"@,
        coverage@ == left("COVERAGE"@, 10) + " "@ + right("SAMPLED"@, 6) + "  "@ + left(
            "FILE"@,
            20,
        ),
{
}

/// The totals of an inventory name the files, the bytes and, where they were
/// counted, the lines.
pub proof fn lemma_inventory_totals(i: Inventory, r: String)
    requires
        call_ensures(Inventory::footer, (&i,), r),
    ensures
        i.counted ==> r@ == "files: "@ + decimal(i.files as int) + ", bytes: "@ + decimal(
            i.bytes as int,
        ) + ", lines: "@ + decimal(i.lines as int),
        !i.counted ==> r@ == "files: "@ + decimal(i.files as int) + ", bytes: "@ + decimal(
            i.bytes as int,
        ) + ", lines: "@ + "n/a"@,
{
}

/// The line of a file in the report of coverage has the percentage, the lines
/// that were sampled, the path, the inferred years and the lines that could not be
/// read, in this order.
pub proof fn lemma_coverage_columns(c: Coverage, percent: Seq<char>, path: Seq<char>)
    ensures
        coverage_line(c, percent, path) == right(percent, 9) + "% "@ + right(
            decimal(c.sampled as int),
            6,
        ) + "  "@ + left(path, 20) + (" (year inferred: "@ + decimal(c.year_inferred as int)
            + ", read errors: "@ + decimal(c.read_errors as int) + ")"@),
{
    assert(coverage_line(c, percent, path) =~= right(percent, 9) + "% "@ + right(
        decimal(c.sampled as int),
        6,
    ) + "  "@ + left(path, 20) + (" (year inferred: "@ + decimal(c.year_inferred as int)
        + ", read errors: "@ + decimal(c.read_errors as int) + ")"@));
}

// ---------------------------------------------------------------------------
// The configuration and the summary
// ---------------------------------------------------------------------------

proof fn lemma_shown_last(t: Seq<char>, name: Seq<char>, value: Seq<char>)
    ensures
        contains(t + name + value, name + value),
{
    let all = t + name + value;
    assert(all.subrange(t.len() as int, all.len() as int) =~= name + value);
    assert(occurs_at(all, name + value, t.len() as int));
}

proof fn lemma_still_shown(t: Seq<char>, pat: Seq<char>, more: Seq<char>)
    requires
        contains(t, pat),
    ensures
        contains(t + more, pat),
{
    let i = choose|i: int| occurs_at(t, pat, i);
    assert((t + more).subrange(i, i + pat.len()) =~= t.subrange(i, i + pat.len()));
    assert(occurs_at(t + more, pat, i));
}

/// The echo of a configuration shows each of its numbers under its name.
#[verifier::rlimit(40)]
pub proof fn lemma_echo_shows_the_settings(c: Config, rate: Seq<char>)
    ensures
        contains(
            described(c, rate),
            " lines="@ + decimal(c.lines as int),
        ),
        contains(
            described(c, rate),
            " batch_size="@ + decimal(c.batch_size as int),
        ),
        contains(
            described(c, rate),
            " workers="@ + decimal(c.workers as int),
        ),
        contains(
            described(c, rate),
            " rate="@ + rate,
        ),
        contains(
            described(c, rate),
            " retries="@ + decimal(c.retries as int),
        ),
        contains(
            described(c, rate),
            " seed="@ + seed_text(c.seed),
        ),
{
    let p0 = "mode="@;
    let p1 = mode_label(c.mode);
    let p2 = " transport="@;
    let p3 = transport_label(c.transport);
    let p4 = " endpoint="@;
    let p5 = shown_endpoint(c);
    let p6 = " lines="@;
    let p7 = decimal(c.lines as int);
    let p8 = " batch_size="@;
    let p9 = decimal(c.batch_size as int);
    let p10 = " workers="@;
    let p11 = decimal(c.workers as int);
    let p12 = " rate="@;
    let p13 = rate;
    let p14 = " retries="@;
    let p15 = decimal(c.retries as int);
    let p16 = " seed="@;
    let p17 = seed_text(c.seed);
    let t1 = p0 + p1;
    let t2 = t1 + p2;
    let t3 = t2 + p3;
    let t4 = t3 + p4;
    let t5 = t4 + p5;
    let t6 = t5 + p6;
    let t7 = t6 + p7;
    let t8 = t7 + p8;
    let t9 = t8 + p9;
    let t10 = t9 + p10;
    let t11 = t10 + p11;
    let t12 = t11 + p12;
    let t13 = t12 + p13;
    let t14 = t13 + p14;
    let t15 = t14 + p15;
    let t16 = t15 + p16;
    let t17 = t16 + p17;
    assert(described(c, rate) == t17);
    lemma_shown_last(t5, p6, p7);
    lemma_still_shown(t7, p6 + p7, p8);
    lemma_still_shown(t8, p6 + p7, p9);
    lemma_still_shown(t9, p6 + p7, p10);
    lemma_still_shown(t10, p6 + p7, p11);
    lemma_still_shown(t11, p6 + p7, p12);
    lemma_still_shown(t12, p6 + p7, p13);
    lemma_still_shown(t13, p6 + p7, p14);
    lemma_still_shown(t14, p6 + p7, p15);
    lemma_still_shown(t15, p6 + p7, p16);
    lemma_still_shown(t16, p6 + p7, p17);
    lemma_shown_last(t7, p8, p9);
    lemma_still_shown(t9, p8 + p9, p10);
    lemma_still_shown(t10, p8 + p9, p11);
    lemma_still_shown(t11, p8 + p9, p12);
    lemma_still_shown(t12, p8 + p9, p13);
    lemma_still_shown(t13, p8 + p9, p14);
    lemma_still_shown(t14, p8 + p9, p15);
    lemma_still_shown(t15, p8 + p9, p16);
    lemma_still_shown(t16, p8 + p9, p17);
    lemma_shown_last(t9, p10, p11);
    lemma_still_shown(t11, p10 + p11, p12);
    lemma_still_shown(t12, p10 + p11, p13);
    lemma_still_shown(t13, p10 + p11, p14);
    lemma_still_shown(t14, p10 + p11, p15);
    lemma_still_shown(t15, p10 + p11, p16);
    lemma_still_shown(t16, p10 + p11, p17);
    lemma_shown_last(t11, p12, p13);
    lemma_still_shown(t13, p12 + p13, p14);
    lemma_still_shown(t14, p12 + p13, p15);
    lemma_still_shown(t15, p12 + p13, p16);
    lemma_still_shown(t16, p12 + p13, p17);
    lemma_shown_last(t13, p14, p15);
    lemma_still_shown(t15, p14 + p15, p16);
    lemma_still_shown(t16, p14 + p15, p17);
    lemma_shown_last(t15, p16, p17);
}

/// The summary of a run shows each of its counters under its name.
#[verifier::rlimit(40)]
pub proof fn lemma_summary_shows_the_counters(s: Summary, elapsed: Seq<char>, rate: Seq<char>)
    ensures
        contains(
            summary_block(s, elapsed, rate),
            "\nEvents requested:  "@ + decimal(s.snapshot.requested as int),
        ),
        contains(
            summary_block(s, elapsed, rate),
            "\nEvents generated:  "@ + decimal(s.snapshot.generated as int),
        ),
        contains(
            summary_block(s, elapsed, rate),
            "\nEvents sent:       "@ + decimal(s.snapshot.sent as int),
        ),
        contains(
            summary_block(s, elapsed, rate),
            "\nEvents failed:     "@ + decimal(s.snapshot.failed as int),
        ),
        contains(
            summary_block(s, elapsed, rate),
            "\nEvents retried:    "@ + decimal(s.snapshot.retried as int),
        ),
        contains(
            summary_block(s, elapsed, rate),
            "\nTimestamps detected: "@ + decimal(s.snapshot.ts_detected as int),
        ),
        contains(
            summary_block(s, elapsed, rate),
            "\nBytes sent:        "@ + decimal(s.snapshot.bytes_sent as int),
        ),
{
    let p0 =
        "──────────────────────────────────────────\nLogpushi\n──────────────────────────────────────────\nMode:              "@;
    let p1 = s.mode@;
    let p2 = "\nTransport:         "@;
    let p3 = s.transport@;
    let p4 = "\nEndpoint:          "@;
    let p5 = (match s.endpoint {
        Some(e) => e@,
        None => "-"@,
    });
    let p6 = "\nSeed:              "@;
    let p7 = seed_text(s.seed);
    let p8 = "\nEvents requested:  "@;
    let p9 = decimal(s.snapshot.requested as int);
    let p10 = "\nEvents generated:  "@;
    let p11 = decimal(s.snapshot.generated as int);
    let p12 = "\nEvents sent:       "@;
    let p13 = decimal(s.snapshot.sent as int);
    let p14 = "\nEvents failed:     "@;
    let p15 = decimal(s.snapshot.failed as int);
    let p16 = "\nEvents retried:    "@;
    let p17 = decimal(s.snapshot.retried as int);
    let p18 = "\nTimestamps detected: "@;
    let p19 = decimal(s.snapshot.ts_detected as int);
    let p20 = "\nBytes sent:        "@;
    let p21 = decimal(s.snapshot.bytes_sent as int);
    let p22 = "\nElapsed:           "@;
    let p23 = elapsed;
    let p24 = "\nRate:              "@;
    let p25 = rate;
    let p26 = " events/s\n──────────────────────────────────────────\n"@;
    let t1 = p0 + p1;
    let t2 = t1 + p2;
    let t3 = t2 + p3;
    let t4 = t3 + p4;
    let t5 = t4 + p5;
    let t6 = t5 + p6;
    let t7 = t6 + p7;
    let t8 = t7 + p8;
    let t9 = t8 + p9;
    let t10 = t9 + p10;
    let t11 = t10 + p11;
    let t12 = t11 + p12;
    let t13 = t12 + p13;
    let t14 = t13 + p14;
    let t15 = t14 + p15;
    let t16 = t15 + p16;
    let t17 = t16 + p17;
    let t18 = t17 + p18;
    let t19 = t18 + p19;
    let t20 = t19 + p20;
    let t21 = t20 + p21;
    let t22 = t21 + p22;
    let t23 = t22 + p23;
    let t24 = t23 + p24;
    let t25 = t24 + p25;
    let t26 = t25 + p26;
    assert(summary_block(s, elapsed, rate) == t26);
    lemma_shown_last(t7, p8, p9);
    lemma_still_shown(t9, p8 + p9, p10);
    lemma_still_shown(t10, p8 + p9, p11);
    lemma_still_shown(t11, p8 + p9, p12);
    lemma_still_shown(t12, p8 + p9, p13);
    lemma_still_shown(t13, p8 + p9, p14);
    lemma_still_shown(t14, p8 + p9, p15);
    lemma_still_shown(t15, p8 + p9, p16);
    lemma_still_shown(t16, p8 + p9, p17);
    lemma_still_shown(t17, p8 + p9, p18);
    lemma_still_shown(t18, p8 + p9, p19);
    lemma_still_shown(t19, p8 + p9, p20);
    lemma_still_shown(t20, p8 + p9, p21);
    lemma_still_shown(t21, p8 + p9, p22);
    lemma_still_shown(t22, p8 + p9, p23);
    lemma_still_shown(t23, p8 + p9, p24);
    lemma_still_shown(t24, p8 + p9, p25);
    lemma_still_shown(t25, p8 + p9, p26);
    lemma_shown_last(t9, p10, p11);
    lemma_still_shown(t11, p10 + p11, p12);
    lemma_still_shown(t12, p10 + p11, p13);
    lemma_still_shown(t13, p10 + p11, p14);
    lemma_still_shown(t14, p10 + p11, p15);
    lemma_still_shown(t15, p10 + p11, p16);
    lemma_still_shown(t16, p10 + p11, p17);
    lemma_still_shown(t17, p10 + p11, p18);
    lemma_still_shown(t18, p10 + p11, p19);
    lemma_still_shown(t19, p10 + p11, p20);
    lemma_still_shown(t20, p10 + p11, p21);
    lemma_still_shown(t21, p10 + p11, p22);
    lemma_still_shown(t22, p10 + p11, p23);
    lemma_still_shown(t23, p10 + p11, p24);
    lemma_still_shown(t24, p10 + p11, p25);
    lemma_still_shown(t25, p10 + p11, p26);
    lemma_shown_last(t11, p12, p13);
    lemma_still_shown(t13, p12 + p13, p14);
    lemma_still_shown(t14, p12 + p13, p15);
    lemma_still_shown(t15, p12 + p13, p16);
    lemma_still_shown(t16, p12 + p13, p17);
    lemma_still_shown(t17, p12 + p13, p18);
    lemma_still_shown(t18, p12 + p13, p19);
    lemma_still_shown(t19, p12 + p13, p20);
    lemma_still_shown(t20, p12 + p13, p21);
    lemma_still_shown(t21, p12 + p13, p22);
    lemma_still_shown(t22, p12 + p13, p23);
    lemma_still_shown(t23, p12 + p13, p24);
    lemma_still_shown(t24, p12 + p13, p25);
    lemma_still_shown(t25, p12 + p13, p26);
    lemma_shown_last(t13, p14, p15);
    lemma_still_shown(t15, p14 + p15, p16);
    lemma_still_shown(t16, p14 + p15, p17);
    lemma_still_shown(t17, p14 + p15, p18);
    lemma_still_shown(t18, p14 + p15, p19);
    lemma_still_shown(t19, p14 + p15, p20);
    lemma_still_shown(t20, p14 + p15, p21);
    lemma_still_shown(t21, p14 + p15, p22);
    lemma_still_shown(t22, p14 + p15, p23);
    lemma_still_shown(t23, p14 + p15, p24);
    lemma_still_shown(t24, p14 + p15, p25);
    lemma_still_shown(t25, p14 + p15, p26);
    lemma_shown_last(t15, p16, p17);
    lemma_still_shown(t17, p16 + p17, p18);
    lemma_still_shown(t18, p16 + p17, p19);
    lemma_still_shown(t19, p16 + p17, p20);
    lemma_still_shown(t20, p16 + p17, p21);
    lemma_still_shown(t21, p16 + p17, p22);
    lemma_still_shown(t22, p16 + p17, p23);
    lemma_still_shown(t23, p16 + p17, p24);
    lemma_still_shown(t24, p16 + p17, p25);
    lemma_still_shown(t25, p16 + p17, p26);
    lemma_shown_last(t17, p18, p19);
    lemma_still_shown(t19, p18 + p19, p20);
    lemma_still_shown(t20, p18 + p19, p21);
    lemma_still_shown(t21, p18 + p19, p22);
    lemma_still_shown(t22, p18 + p19, p23);
    lemma_still_shown(t23, p18 + p19, p24);
    lemma_still_shown(t24, p18 + p19, p25);
    lemma_still_shown(t25, p18 + p19, p26);
    lemma_shown_last(t19, p20, p21);
    lemma_still_shown(t21, p20 + p21, p22);
    lemma_still_shown(t22, p20 + p21, p23);
    lemma_still_shown(t23, p20 + p21, p24);
    lemma_still_shown(t24, p20 + p21, p25);
    lemma_still_shown(t25, p20 + p21, p26);
}

/// The report of a run shows each of its counters under its name.
#[verifier::rlimit(40)]
pub proof fn lemma_report_shows_the_counters(s: Summary, bytes: Seq<char>, elapsed: Seq<char>, rate: Seq<char>)
    requires
        !s.aborted,
    ensures
        contains(
            report_lines(s, bytes, elapsed, rate),
            "\nEvents requested:  "@ + decimal(s.snapshot.requested as int),
        ),
        contains(
            report_lines(s, bytes, elapsed, rate),
            "\nEvents generated:  "@ + decimal(s.snapshot.generated as int),
        ),
        contains(
            report_lines(s, bytes, elapsed, rate),
            "\nEvents sent:       "@ + decimal(s.snapshot.sent as int),
        ),
        contains(
            report_lines(s, bytes, elapsed, rate),
            "\nEvents failed:     "@ + decimal(s.snapshot.failed as int),
        ),
        contains(
            report_lines(s, bytes, elapsed, rate),
            "\nEvents retried:    "@ + decimal(s.snapshot.retried as int),
        ),
        contains(
            report_lines(s, bytes, elapsed, rate),
            "\nTimestamps detected: "@ + decimal(s.snapshot.ts_detected as int),
        ),
        contains(
            report_lines(s, bytes, elapsed, rate),
            "\nYear inferred:     "@ + decimal(s.snapshot.ts_year_inferred as int),
        ),
        contains(
            report_lines(s, bytes, elapsed, rate),
            "\nMalformed lines:   "@ + decimal(s.snapshot.malformed_lines as int),
        ),
        contains(
            report_lines(s, bytes, elapsed, rate),
            "\nEncoding errors:   "@ + decimal(s.snapshot.encoding_errors as int),
        ),
        contains(
            report_lines(s, bytes, elapsed, rate),
            "\nBytes sent:        "@ + bytes,
        ),
{
    let p0 = "Logpushi summary\n----------------------------------------\nMode:              "@;
    let p1 = s.mode@;
    let p2 = "\nTransport:         "@;
    let p3 = s.transport@;
    let p4 = "\n Seed:              "@;
    let p5 = seed_text(s.seed);
    let p6 = "\nEvents requested:  "@;
    let p7 = decimal(s.snapshot.requested as int);
    let p8 = "\nEvents generated:  "@;
    let p9 = decimal(s.snapshot.generated as int);
    let p10 = "\nEvents sent:       "@;
    let p11 = decimal(s.snapshot.sent as int);
    let p12 = "\nEvents failed:     "@;
    let p13 = decimal(s.snapshot.failed as int);
    let p14 = "\nEvents retried:    "@;
    let p15 = decimal(s.snapshot.retried as int);
    let p16 = "\nTimestamps detected: "@;
    let p17 = decimal(s.snapshot.ts_detected as int);
    let p18 = "\nYear inferred:     "@;
    let p19 = decimal(s.snapshot.ts_year_inferred as int);
    let p20 = "\nMalformed lines:   "@;
    let p21 = decimal(s.snapshot.malformed_lines as int);
    let p22 = "\nEncoding errors:   "@;
    let p23 = decimal(s.snapshot.encoding_errors as int);
    let p24 = "\nBytes sent:        "@;
    let p25 = bytes;
    let p26 = "\nElapsed:           "@;
    let p27 = elapsed;
    let p28 = "s\nRate:              "@;
    let p29 = rate;
    let p30 = " events/sec\n"@;
    let t1 = p0 + p1;
    let t2 = t1 + p2;
    let t3 = t2 + p3;
    let t4 = t3 + p4;
    let t5 = t4 + p5;
    let t6 = t5 + p6;
    let t7 = t6 + p7;
    let t8 = t7 + p8;
    let t9 = t8 + p9;
    let t10 = t9 + p10;
    let t11 = t10 + p11;
    let t12 = t11 + p12;
    let t13 = t12 + p13;
    let t14 = t13 + p14;
    let t15 = t14 + p15;
    let t16 = t15 + p16;
    let t17 = t16 + p17;
    let t18 = t17 + p18;
    let t19 = t18 + p19;
    let t20 = t19 + p20;
    let t21 = t20 + p21;
    let t22 = t21 + p22;
    let t23 = t22 + p23;
    let t24 = t23 + p24;
    let t25 = t24 + p25;
    let t26 = t25 + p26;
    let t27 = t26 + p27;
    let t28 = t27 + p28;
    let t29 = t28 + p29;
    let t30 = t29 + p30;
    assert(report_lines(s, bytes, elapsed, rate) == t30);
    lemma_shown_last(t5, p6, p7);
    lemma_still_shown(t7, p6 + p7, p8);
    lemma_still_shown(t8, p6 + p7, p9);
    lemma_still_shown(t9, p6 + p7, p10);
    lemma_still_shown(t10, p6 + p7, p11);
    lemma_still_shown(t11, p6 + p7, p12);
    lemma_still_shown(t12, p6 + p7, p13);
    lemma_still_shown(t13, p6 + p7, p14);
    lemma_still_shown(t14, p6 + p7, p15);
    lemma_still_shown(t15, p6 + p7, p16);
    lemma_still_shown(t16, p6 + p7, p17);
    lemma_still_shown(t17, p6 + p7, p18);
    lemma_still_shown(t18, p6 + p7, p19);
    lemma_still_shown(t19, p6 + p7, p20);
    lemma_still_shown(t20, p6 + p7, p21);
    lemma_still_shown(t21, p6 + p7, p22);
    lemma_still_shown(t22, p6 + p7, p23);
    lemma_still_shown(t23, p6 + p7, p24);
    lemma_still_shown(t24, p6 + p7, p25);
    lemma_still_shown(t25, p6 + p7, p26);
    lemma_still_shown(t26, p6 + p7, p27);
    lemma_still_shown(t27, p6 + p7, p28);
    lemma_still_shown(t28, p6 + p7, p29);
    lemma_still_shown(t29, p6 + p7, p30);
    lemma_shown_last(t7, p8, p9);
    lemma_still_shown(t9, p8 + p9, p10);
    lemma_still_shown(t10, p8 + p9, p11);
    lemma_still_shown(t11, p8 + p9, p12);
    lemma_still_shown(t12, p8 + p9, p13);
    lemma_still_shown(t13, p8 + p9, p14);
    lemma_still_shown(t14, p8 + p9, p15);
    lemma_still_shown(t15, p8 + p9, p16);
    lemma_still_shown(t16, p8 + p9, p17);
    lemma_still_shown(t17, p8 + p9, p18);
    lemma_still_shown(t18, p8 + p9, p19);
    lemma_still_shown(t19, p8 + p9, p20);
    lemma_still_shown(t20, p8 + p9, p21);
    lemma_still_shown(t21, p8 + p9, p22);
    lemma_still_shown(t22, p8 + p9, p23);
    lemma_still_shown(t23, p8 + p9, p24);
    lemma_still_shown(t24, p8 + p9, p25);
    lemma_still_shown(t25, p8 + p9, p26);
    lemma_still_shown(t26, p8 + p9, p27);
    lemma_still_shown(t27, p8 + p9, p28);
    lemma_still_shown(t28, p8 + p9, p29);
    lemma_still_shown(t29, p8 + p9, p30);
    lemma_shown_last(t9, p10, p11);
    lemma_still_shown(t11, p10 + p11, p12);
    lemma_still_shown(t12, p10 + p11, p13);
    lemma_still_shown(t13, p10 + p11, p14);
    lemma_still_shown(t14, p10 + p11, p15);
    lemma_still_shown(t15, p10 + p11, p16);
    lemma_still_shown(t16, p10 + p11, p17);
    lemma_still_shown(t17, p10 + p11, p18);
    lemma_still_shown(t18, p10 + p11, p19);
    lemma_still_shown(t19, p10 + p11, p20);
    lemma_still_shown(t20, p10 + p11, p21);
    lemma_still_shown(t21, p10 + p11, p22);
    lemma_still_shown(t22, p10 + p11, p23);
    lemma_still_shown(t23, p10 + p11, p24);
    lemma_still_shown(t24, p10 + p11, p25);
    lemma_still_shown(t25, p10 + p11, p26);
    lemma_still_shown(t26, p10 + p11, p27);
    lemma_still_shown(t27, p10 + p11, p28);
    lemma_still_shown(t28, p10 + p11, p29);
    lemma_still_shown(t29, p10 + p11, p30);
    lemma_shown_last(t11, p12, p13);
    lemma_still_shown(t13, p12 + p13, p14);
    lemma_still_shown(t14, p12 + p13, p15);
    lemma_still_shown(t15, p12 + p13, p16);
    lemma_still_shown(t16, p12 + p13, p17);
    lemma_still_shown(t17, p12 + p13, p18);
    lemma_still_shown(t18, p12 + p13, p19);
    lemma_still_shown(t19, p12 + p13, p20);
    lemma_still_shown(t20, p12 + p13, p21);
    lemma_still_shown(t21, p12 + p13, p22);
    lemma_still_shown(t22, p12 + p13, p23);
    lemma_still_shown(t23, p12 + p13, p24);
    lemma_still_shown(t24, p12 + p13, p25);
    lemma_still_shown(t25, p12 + p13, p26);
    lemma_still_shown(t26, p12 + p13, p27);
    lemma_still_shown(t27, p12 + p13, p28);
    lemma_still_shown(t28, p12 + p13, p29);
    lemma_still_shown(t29, p12 + p13, p30);
    lemma_shown_last(t13, p14, p15);
    lemma_still_shown(t15, p14 + p15, p16);
    lemma_still_shown(t16, p14 + p15, p17);
    lemma_still_shown(t17, p14 + p15, p18);
    lemma_still_shown(t18, p14 + p15, p19);
    lemma_still_shown(t19, p14 + p15, p20);
    lemma_still_shown(t20, p14 + p15, p21);
    lemma_still_shown(t21, p14 + p15, p22);
    lemma_still_shown(t22, p14 + p15, p23);
    lemma_still_shown(t23, p14 + p15, p24);
    lemma_still_shown(t24, p14 + p15, p25);
    lemma_still_shown(t25, p14 + p15, p26);
    lemma_still_shown(t26, p14 + p15, p27);
    lemma_still_shown(t27, p14 + p15, p28);
    lemma_still_shown(t28, p14 + p15, p29);
    lemma_still_shown(t29, p14 + p15, p30);
    lemma_shown_last(t15, p16, p17);
    lemma_still_shown(t17, p16 + p17, p18);
    lemma_still_shown(t18, p16 + p17, p19);
    lemma_still_shown(t19, p16 + p17, p20);
    lemma_still_shown(t20, p16 + p17, p21);
    lemma_still_shown(t21, p16 + p17, p22);
    lemma_still_shown(t22, p16 + p17, p23);
    lemma_still_shown(t23, p16 + p17, p24);
    lemma_still_shown(t24, p16 + p17, p25);
    lemma_still_shown(t25, p16 + p17, p26);
    lemma_still_shown(t26, p16 + p17, p27);
    lemma_still_shown(t27, p16 + p17, p28);
    lemma_still_shown(t28, p16 + p17, p29);
    lemma_still_shown(t29, p16 + p17, p30);
    lemma_shown_last(t17, p18, p19);
    lemma_still_shown(t19, p18 + p19, p20);
    lemma_still_shown(t20, p18 + p19, p21);
    lemma_still_shown(t21, p18 + p19, p22);
    lemma_still_shown(t22, p18 + p19, p23);
    lemma_still_shown(t23, p18 + p19, p24);
    lemma_still_shown(t24, p18 + p19, p25);
    lemma_still_shown(t25, p18 + p19, p26);
    lemma_still_shown(t26, p18 + p19, p27);
    lemma_still_shown(t27, p18 + p19, p28);
    lemma_still_shown(t28, p18 + p19, p29);
    lemma_still_shown(t29, p18 + p19, p30);
    lemma_shown_last(t19, p20, p21);
    lemma_still_shown(t21, p20 + p21, p22);
    lemma_still_shown(t22, p20 + p21, p23);
    lemma_still_shown(t23, p20 + p21, p24);
    lemma_still_shown(t24, p20 + p21, p25);
    lemma_still_shown(t25, p20 + p21, p26);
    lemma_still_shown(t26, p20 + p21, p27);
    lemma_still_shown(t27, p20 + p21, p28);
    lemma_still_shown(t28, p20 + p21, p29);
    lemma_still_shown(t29, p20 + p21, p30);
    lemma_shown_last(t21, p22, p23);
    lemma_still_shown(t23, p22 + p23, p24);
    lemma_still_shown(t24, p22 + p23, p25);
    lemma_still_shown(t25, p22 + p23, p26);
    lemma_still_shown(t26, p22 + p23, p27);
    lemma_still_shown(t27, p22 + p23, p28);
    lemma_still_shown(t28, p22 + p23, p29);
    lemma_still_shown(t29, p22 + p23, p30);
    lemma_shown_last(t23, p24, p25);
    lemma_still_shown(t25, p24 + p25, p26);
    lemma_still_shown(t26, p24 + p25, p27);
    lemma_still_shown(t27, p24 + p25, p28);
    lemma_still_shown(t28, p24 + p25, p29);
    lemma_still_shown(t29, p24 + p25, p30);
}

/// The report of a run that was aborted says so behind everything else, and is
/// otherwise that of one that was not.
pub proof fn lemma_report_tells_of_the_abort(
    s: Summary,
    bytes: Seq<char>,
    elapsed: Seq<char>,
    rate: Seq<char>,
)
    requires
        s.aborted,
    ensures
        report_lines(s, bytes, elapsed, rate) == report_lines(
            (Summary { aborted: false, ..s }),
            bytes,
            elapsed,
            rate,
        ) + "Status:            ABORTED\n"@,
{
}

/// A seed is shown by its digits, and a run without one as automatic.
pub proof fn lemma_seeds_are_shown(seed: u64)
    ensures
        seed_text(Some(seed)) == decimal(seed as int),
        seed_text(None) == "auto"@,
{
}

} // verus!
