//! Names: of months and weekdays, of severities and of dataset families.

use vstd::prelude::*;

use crate::detectors::month_of;
use crate::event::{family_of, severity_of};
use crate::render::{month_name, weekday_name};
use crate::text::{contains, lower};
use crate::transport::otel::severity_number_of;

verus! {

broadcast use vstd::string::group_string_axioms;

/// The `n`-th three letters of a text.
pub open spec fn triple(text: Seq<char>, n: int) -> Seq<char> {
    text.subrange(3 * n, 3 * n + 3)
}

/// The months of the year, by their short names.
pub open spec fn year_text() -> Seq<char> {
    "JanFebMarAprMayJunJulAugSepOctNovDec"@
}

/// The days of the week, by their short names.
pub open spec fn week_text() -> Seq<char> {
    "SunMonTueWedThuFriSat"@
}

/// The letters of the month names.
proof fn lemma_month_letters()
    ensures
        "jan"@.len() == 3 && "jan"@[0] == 'j' && "jan"@[1] == 'a' && "jan"@[2] == 'n',
        "feb"@.len() == 3 && "feb"@[0] == 'f' && "feb"@[1] == 'e' && "feb"@[2] == 'b',
        "mar"@.len() == 3 && "mar"@[0] == 'm' && "mar"@[1] == 'a' && "mar"@[2] == 'r',
        "apr"@.len() == 3 && "apr"@[0] == 'a' && "apr"@[1] == 'p' && "apr"@[2] == 'r',
        "may"@.len() == 3 && "may"@[0] == 'm' && "may"@[1] == 'a' && "may"@[2] == 'y',
        "jun"@.len() == 3 && "jun"@[0] == 'j' && "jun"@[1] == 'u' && "jun"@[2] == 'n',
        "jul"@.len() == 3 && "jul"@[0] == 'j' && "jul"@[1] == 'u' && "jul"@[2] == 'l',
        "aug"@.len() == 3 && "aug"@[0] == 'a' && "aug"@[1] == 'u' && "aug"@[2] == 'g',
        "sep"@.len() == 3 && "sep"@[0] == 's' && "sep"@[1] == 'e' && "sep"@[2] == 'p',
        "oct"@.len() == 3 && "oct"@[0] == 'o' && "oct"@[1] == 'c' && "oct"@[2] == 't',
        "nov"@.len() == 3 && "nov"@[0] == 'n' && "nov"@[1] == 'o' && "nov"@[2] == 'v',
        "dec"@.len() == 3 && "dec"@[0] == 'd' && "dec"@[1] == 'e' && "dec"@[2] == 'c',
{
    reveal_strlit("jan");
    reveal_strlit("feb");
    reveal_strlit("mar");
    reveal_strlit("apr");
    reveal_strlit("may");
    reveal_strlit("jun");
    reveal_strlit("jul");
    reveal_strlit("aug");
    reveal_strlit("sep");
    reveal_strlit("oct");
    reveal_strlit("nov");
    reveal_strlit("dec");
}

/// The twelve English month names are read as their calendar numbers, in any
/// case, and nothing else is a month.
#[verifier::rlimit(40)]
pub proof fn lemma_months_are_read_by_name(name: Seq<char>)
    ensures
        lower(name) == "jan"@ ==> month_of(name) == Some(1int),
        lower(name) == "feb"@ ==> month_of(name) == Some(2int),
        lower(name) == "mar"@ ==> month_of(name) == Some(3int),
        lower(name) == "apr"@ ==> month_of(name) == Some(4int),
        lower(name) == "may"@ ==> month_of(name) == Some(5int),
        lower(name) == "jun"@ ==> month_of(name) == Some(6int),
        lower(name) == "jul"@ ==> month_of(name) == Some(7int),
        lower(name) == "aug"@ ==> month_of(name) == Some(8int),
        lower(name) == "sep"@ ==> month_of(name) == Some(9int),
        lower(name) == "oct"@ ==> month_of(name) == Some(10int),
        lower(name) == "nov"@ ==> month_of(name) == Some(11int),
        lower(name) == "dec"@ ==> month_of(name) == Some(12int),
        month_of(name) matches Some(n) ==> 1 <= n <= 12 && lower(name) == lower(
            triple(year_text(), n - 1),
        ),
{
    reveal_strlit("JanFebMarAprMayJunJulAugSepOctNovDec");
    lemma_month_letters();
    if let Some(n) = month_of(name) {
        assert(lower(name) =~= lower(triple(year_text(), n - 1)));
    }
}

/// The name written for month number `n` is the `n`-th of Jan to Dec, and it is
/// read as that number.
#[verifier::rlimit(40)]
pub proof fn lemma_months_are_written_by_number(n: int)
    requires
        1 <= n <= 12,
    ensures
        month_name(n) == triple(year_text(), n - 1),
        month_of(triple(year_text(), n - 1)) == Some(n),
{
    reveal_strlit("JanFebMarAprMayJunJulAugSepOctNovDec");
    reveal_strlit("Jan");
    reveal_strlit("Feb");
    reveal_strlit("Mar");
    reveal_strlit("Apr");
    reveal_strlit("May");
    reveal_strlit("Jun");
    reveal_strlit("Jul");
    reveal_strlit("Aug");
    reveal_strlit("Sep");
    reveal_strlit("Oct");
    reveal_strlit("Nov");
    reveal_strlit("Dec");
    assert(month_name(n) =~= triple(year_text(), n - 1));
    lemma_lower_triple(n);
}

#[verifier::rlimit(40)]
proof fn lemma_lower_triple(n: int)
    requires
        1 <= n <= 12,
    ensures
        month_of(triple(year_text(), n - 1)) == Some(n),
{
    let t = lower(triple(year_text(), n - 1));
    reveal_strlit("JanFebMarAprMayJunJulAugSepOctNovDec");
    lemma_month_letters();
    assert(n == 1 ==> t =~= "jan"@);
    assert(n == 2 ==> t =~= "feb"@);
    assert(n == 3 ==> t =~= "mar"@);
    assert(n == 4 ==> t =~= "apr"@);
    assert(n == 5 ==> t =~= "may"@);
    assert(n == 6 ==> t =~= "jun"@);
    assert(n == 7 ==> t =~= "jul"@);
    assert(n == 8 ==> t =~= "aug"@);
    assert(n == 9 ==> t =~= "sep"@);
    assert(n == 10 ==> t =~= "oct"@);
    assert(n == 11 ==> t =~= "nov"@);
    assert(n == 12 ==> t =~= "dec"@);
}

/// The name written for weekday number `w`, counted from Sunday, is the one with
/// that number in the week.
pub proof fn lemma_weekdays_are_written_by_number(w: int)
    requires
        0 <= w <= 6,
    ensures
        weekday_name(w) == triple(week_text(), w),
{
    reveal_strlit("SunMonTueWedThuFriSat");
    reveal_strlit("Sun");
    reveal_strlit("Mon");
    reveal_strlit("Tue");
    reveal_strlit("Wed");
    reveal_strlit("Thu");
    reveal_strlit("Fri");
    reveal_strlit("Sat");
    assert(weekday_name(w) =~= triple(week_text(), w));
}

/// The keywords of a level in the order in which they count, each with its level.
pub open spec fn severity_keywords() -> Seq<(Seq<char>, Seq<char>)> {
    seq![
        ("FATAL"@, "FATAL"@),
        ("ERROR"@, "ERROR"@),
        ("ERR:"@, "ERROR"@),
        ("error"@, "ERROR"@),
        ("WARN"@, "WARN"@),
        ("WRN"@, "WARN"@),
        ("NOTICE"@, "NOTICE"@),
        ("CRITICAL"@, "CRITICAL"@),
        ("INFO"@, "INFO"@),
        ("DEBUG"@, "DEBUG"@),
        ("TRACE"@, "TRACE"@),
        ("VERBOSE"@, "VERBOSE"@),
    ]
}

/// A line that contains a level keyword and none of those before it has the
/// level of that keyword.
pub proof fn lemma_first_keyword_decides(line: Seq<char>, k: int)
    requires
        0 <= k < severity_keywords().len(),
        contains(line, severity_keywords()[k].0),
        forall|j: int| 0 <= j < k ==> !contains(line, #[trigger] severity_keywords()[j].0),
    ensures
        severity_of(line) == Some(severity_keywords()[k].1),
{
    let t = severity_keywords();
    assert(forall|j: int| 0 <= j < k ==> !contains(line, #[trigger] t[j].0));
    assert(k > 0 ==> !contains(line, t[0].0));
    assert(k > 1 ==> !contains(line, t[1].0));
    assert(k > 2 ==> !contains(line, t[2].0));
    assert(k > 3 ==> !contains(line, t[3].0));
    assert(k > 4 ==> !contains(line, t[4].0));
    assert(k > 5 ==> !contains(line, t[5].0));
    assert(k > 6 ==> !contains(line, t[6].0));
    assert(k > 7 ==> !contains(line, t[7].0));
    assert(k > 8 ==> !contains(line, t[8].0));
    assert(k > 9 ==> !contains(line, t[9].0));
    assert(k > 10 ==> !contains(line, t[10].0));
}

/// A line has a severity exactly when it contains one of the twelve keywords; in
/// particular every line with `FATAL` in it is fatal, and every other line with
/// `ERROR`, `ERR:` or `error` in it is an error.
pub proof fn lemma_lines_without_keywords_have_no_severity(line: Seq<char>)
    ensures
        severity_of(line) is Some <==> {
            ||| contains(line, "FATAL"@)
            ||| contains(line, "ERROR"@)
            ||| contains(line, "ERR:"@)
            ||| contains(line, "error"@)
            ||| contains(line, "WARN"@)
            ||| contains(line, "WRN"@)
            ||| contains(line, "NOTICE"@)
            ||| contains(line, "CRITICAL"@)
            ||| contains(line, "INFO"@)
            ||| contains(line, "DEBUG"@)
            ||| contains(line, "TRACE"@)
            ||| contains(line, "VERBOSE"@)
        },
        contains(line, "FATAL"@) ==> severity_of(line) == Some("FATAL"@),
        !contains(line, "FATAL"@) && contains(line, "ERROR"@) ==> severity_of(line) == Some(
            "ERROR"@,
        ),
        !contains(line, "FATAL"@) && contains(line, "ERR:"@) ==> severity_of(line) == Some(
            "ERROR"@,
        ),
        !contains(line, "FATAL"@) && contains(line, "error"@) ==> severity_of(line) == Some(
            "ERROR"@,
        ),
{
}

/// The OTLP number of every level that a line can have: the first of the range
/// of DEBUG, INFO, WARN, ERROR or FATAL. A line without a level counts as INFO.
pub proof fn lemma_severity_numbers(level: Option<Seq<char>>)
    ensures
        level == Some("DEBUG"@) ==> severity_number_of(level) == 5,
        level == Some("TRACE"@) ==> severity_number_of(level) == 5,
        level == Some("VERBOSE"@) ==> severity_number_of(level) == 5,
        level == Some("NOTICE"@) ==> severity_number_of(level) == 9,
        level == Some("INFO"@) ==> severity_number_of(level) == 9,
        level == Some("WARN"@) ==> severity_number_of(level) == 13,
        level == Some("ERROR"@) ==> severity_number_of(level) == 17,
        level == Some("CRITICAL"@) ==> severity_number_of(level) == 21,
        level == Some("FATAL"@) ==> severity_number_of(level) == 21,
        level is None ==> severity_number_of(level) == 9,
{
    reveal_strlit("DEBUG");
    reveal_strlit("TRACE");
    reveal_strlit("VERBOSE");
    reveal_strlit("NOTICE");
    reveal_strlit("INFO");
    reveal_strlit("WARN");
    reveal_strlit("ERROR");
    reveal_strlit("CRITICAL");
    reveal_strlit("FATAL");
    assert("DEBUG"@[0] == 'D');
    assert("TRACE"@[0] == 'T');
    assert("VERBOSE"@[0] == 'V');
    assert("NOTICE"@[0] == 'N');
    assert("INFO"@[0] == 'I');
    assert("WARN"@[0] == 'W');
    assert("ERROR"@[0] == 'E');
    assert("CRITICAL"@[0] == 'C');
    assert("FATAL"@[0] == 'F');
}

/// The words of a path that name a dataset family, in the order in which they
/// count, each with its family.
pub open spec fn family_words() -> Seq<(Seq<char>, Seq<char>)> {
    seq![
        ("apache"@, "apache"@),
        ("android"@, "android"@),
        ("bgl"@, "bgl"@),
        ("hadoop"@, "hadoop"@),
        ("yarn"@, "hadoop"@),
        ("hpc"@, "hpc"@),
        ("openstack"@, "openstack"@),
        ("proxifier"@, "proxifier"@),
        ("ssh"@, "ssh-syslog"@),
        ("zookeeper"@, "zookeeper"@),
        ("healthapp"@, "health-app"@),
        ("linux"@, "linux-syslog"@),
        ("mac"@, "mac-syslog"@),
    ]
}

/// A path that contains a word of a family, in any case, and none of those before
/// it is of that family.
pub proof fn lemma_first_word_names_the_family(path: Seq<char>, k: int)
    requires
        0 <= k < family_words().len(),
        contains(lower(path), family_words()[k].0),
        forall|j: int| 0 <= j < k ==> !contains(lower(path), #[trigger] family_words()[j].0),
    ensures
        family_of(lower(path)) == family_words()[k].1,
{
    let t = family_words();
    assert(forall|j: int| 0 <= j < k ==> !contains(lower(path), #[trigger] t[j].0));
    assert(k > 0 ==> !contains(lower(path), t[0].0));
    assert(k > 1 ==> !contains(lower(path), t[1].0));
    assert(k > 2 ==> !contains(lower(path), t[2].0));
    assert(k > 3 ==> !contains(lower(path), t[3].0));
    assert(k > 4 ==> !contains(lower(path), t[4].0));
    assert(k > 5 ==> !contains(lower(path), t[5].0));
    assert(k > 6 ==> !contains(lower(path), t[6].0));
    assert(k > 7 ==> !contains(lower(path), t[7].0));
    assert(k > 8 ==> !contains(lower(path), t[8].0));
    assert(k > 9 ==> !contains(lower(path), t[9].0));
    assert(k > 10 ==> !contains(lower(path), t[10].0));
    assert(k > 11 ==> !contains(lower(path), t[11].0));
}

/// A path without any of those words is of no known family.
pub proof fn lemma_paths_without_words_are_generic(path: Seq<char>)
    requires
        forall|j: int|
            0 <= j < family_words().len() ==> !contains(
                lower(path),
                #[trigger] family_words()[j].0,
            ),
    ensures
        family_of(lower(path)) == "generic"@,
{
    let t = family_words();
    assert(forall|j: int| 0 <= j < 13 ==> !contains(lower(path), #[trigger] t[j].0));
    assert(!contains(lower(path), t[0].0));
    assert(!contains(lower(path), t[1].0));
    assert(!contains(lower(path), t[2].0));
    assert(!contains(lower(path), t[3].0));
    assert(!contains(lower(path), t[4].0));
    assert(!contains(lower(path), t[5].0));
    assert(!contains(lower(path), t[6].0));
    assert(!contains(lower(path), t[7].0));
    assert(!contains(lower(path), t[8].0));
    assert(!contains(lower(path), t[9].0));
    assert(!contains(lower(path), t[10].0));
    assert(!contains(lower(path), t[11].0));
    assert(!contains(lower(path), t[12].0));
}

} // verus!
