//! What `discover` and `validate` report of a corpus.

use vstd::prelude::*;

use crate::detectors::scan;
use crate::discovery::LogFile;
use crate::pipeline::{one_if, year_is_inferred};
use crate::text::{chars_of, decimal, push_decimal};
use crate::timestamp::parse;

verus! {

broadcast use vstd::string::group_string_axioms;

/// As many spaces.
pub open spec fn spaces(n: int) -> Seq<char> {
    Seq::new(
        if n > 0 {
            n as nat
        } else {
            0
        },
        |i: int| ' ',
    )
}

/// The text with spaces in front up to the width.
pub open spec fn right(s: Seq<char>, width: int) -> Seq<char> {
    spaces(width - s.len()) + s
}

/// The text with spaces behind it up to the width.
pub open spec fn left(s: Seq<char>, width: int) -> Seq<char> {
    s + spaces(width - s.len())
}

fn push_spaces(out: &mut String, len: usize, width: usize)
    ensures
        final(out)@ == old(out)@ + spaces(width - len),
{
    let mut n: usize = len;
    assert(spaces(0) =~= Seq::<char>::empty());
    assert(out@ =~= old(out)@ + spaces(0));
    while n < width
        invariant
            len <= n,
            n <= width || n == len,
            out@ == old(out)@ + spaces(n - len),
        decreases width - n,
    {
        out.push(' ');
        assert(spaces(n + 1 - len) =~= spaces(n - len).push(' '));
        assert(out@ =~= old(out)@ + spaces(n + 1 - len));
        n = n + 1;
    }
    assert(spaces(width - len) =~= spaces(n - len));
}

fn push_right(out: &mut String, s: &str, width: usize)
    ensures
        final(out)@ == old(out)@ + right(s@, width as int),
{
    push_spaces(out, chars_of(s).len(), width);
    out.append(s);
    assert(out@ =~= old(out)@ + right(s@, width as int));
}

fn push_left(out: &mut String, s: &str, width: usize)
    ensures
        final(out)@ == old(out)@ + left(s@, width as int),
{
    out.append(s);
    push_spaces(out, chars_of(s).len(), width);
    assert(out@ =~= old(out)@ + left(s@, width as int));
}

fn number_text(n: u64) -> (r: String)
    ensures
        r@ == decimal(n as int),
{
    let mut out = String::new();
    push_decimal(&mut out, n);
    assert(out@ =~= decimal(n as int));
    out
}

// ---------------------------------------------------------------------------
// The inventory
// ---------------------------------------------------------------------------

/// The totals of the files that were listed.
pub struct Inventory {
    /// Whether lines are counted.
    pub counted: bool,
    pub files: u64,
    pub bytes: u64,
    pub lines: u64,
}

/// The text of a count that may not have been made.
pub open spec fn count_text(n: Option<u64>, missing: Seq<char>) -> Seq<char> {
    match n {
        Some(n) => decimal(n as int),
        None => missing,
    }
}

/// The line of a file.
pub open spec fn inventory_line(f: LogFile, n: Option<u64>) -> Seq<char> {
    right(count_text(n, "-"@), 8) + " "@ + right(decimal(f.size as int), 15) + "  "@ + f.rel_path@
}

impl Inventory {
    pub fn new(counted: bool) -> (r: Inventory)
        ensures
            r == (Inventory { counted, files: 0, bytes: 0, lines: 0 }),
    {
        Inventory { counted, files: 0, bytes: 0, lines: 0 }
    }

    /// The heading of the list.
    pub fn header(&self) -> (r: String)
        ensures
            r@ == right("LINES"@, 8) + " "@ + right("BYTES"@, 15) + "  FILE"@,
    {
        let mut out = String::new();
        push_right(&mut out, "LINES", 8);
        out.append(" ");
        push_right(&mut out, "BYTES", 15);
        out.append("  FILE");
        assert(out@ =~= right("LINES"@, 8) + " "@ + right("BYTES"@, 15) + "  FILE"@);
        out
    }

    /// The line of a file, with its number of lines where they are counted.
    pub fn entry(&mut self, f: &LogFile, n: Option<u64>) -> (r: String)
        requires
            old(self).files < u64::MAX,
            old(self).bytes + f.size <= u64::MAX,
            n matches Some(n) ==> old(self).lines + n <= u64::MAX,
        ensures
            r@ == inventory_line(*f, n),
            *final(self) == (Inventory {
                files: (old(self).files + 1) as u64,
                bytes: (old(self).bytes + f.size) as u64,
                lines: (old(self).lines + (match n {
                    Some(n) => n as int,
                    None => 0,
                })) as u64,
                ..*old(self)
            }),
    {
        self.files = self.files + 1;
        self.bytes = self.bytes + f.size;
        let count = match n {
            Some(n) => {
                self.lines = self.lines + n;
                number_text(n)
            },
            None => "-".to_owned(),
        };
        let mut out = String::new();
        push_right(&mut out, count.as_str(), 8);
        out.append(" ");
        push_right(&mut out, number_text(f.size).as_str(), 15);
        out.append("  ");
        out.append(f.rel_path.as_str());
        assert(out@ =~= inventory_line(*f, n));
        out
    }

    /// The totals.
    pub fn footer(&self) -> (r: String)
        ensures
            r@ == "files: "@ + decimal(self.files as int) + ", bytes: "@ + decimal(
                self.bytes as int,
            ) + ", lines: "@ + (if self.counted {
                decimal(self.lines as int)
            } else {
                "n/a"@
            }),
    {
        let mut out = String::new();
        out.append("files: ");
        push_decimal(&mut out, self.files);
        out.append(", bytes: ");
        push_decimal(&mut out, self.bytes);
        out.append(", lines: ");
        if self.counted {
            push_decimal(&mut out, self.lines);
        } else {
            out.append("n/a");
        }
        assert(out@ =~= "files: "@ + decimal(self.files as int) + ", bytes: "@ + decimal(
            self.bytes as int,
        ) + ", lines: "@ + (if self.counted {
            decimal(self.lines as int)
        } else {
            "n/a"@
        }));
        out
    }
}

// ---------------------------------------------------------------------------
// Detection coverage
// ---------------------------------------------------------------------------

/// What detection found in a sample of the lines of a file.
#[derive(Debug, Clone, Copy, PartialEq, Eq, Structural)]
pub struct Coverage {
    pub sampled: u64,
    pub detected: u64,
    pub year_inferred: u64,
    pub read_errors: u64,
}

impl Coverage {
    pub fn new() -> (r: Coverage)
        ensures
            r == (Coverage { sampled: 0, detected: 0, year_inferred: 0, read_errors: 0 }),
    {
        Coverage { sampled: 0, detected: 0, year_inferred: 0, read_errors: 0 }
    }

    /// The coverage of a file that cannot be opened.
    pub fn unopened() -> (r: Coverage)
        ensures
            r == (Coverage { sampled: 0, detected: 0, year_inferred: 0, read_errors: 1 }),
    {
        Coverage { sampled: 0, detected: 0, year_inferred: 0, read_errors: 1 }
    }

    /// Each line was read or not, and each finding was made in a line that was.
    pub open spec fn wf(self) -> bool {
        &&& self.sampled + self.read_errors <= u64::MAX
        &&& self.year_inferred <= self.detected <= self.sampled
    }

    /// Whether a sample of that many lines, read or not, is complete.
    pub fn complete(&self, sample: u64) -> (r: bool)
        requires
            self.wf(),
        ensures
            r == (self.sampled + self.read_errors >= sample),
    {
        self.sampled + self.read_errors >= sample
    }

    /// Takes a line of the sample.
    pub fn line(&mut self, line: &str)
        requires
            old(self).wf(),
            old(self).sampled + old(self).read_errors < u64::MAX,
        ensures
            final(self).wf(),
            *final(self) == (Coverage {
                sampled: (old(self).sampled + 1) as u64,
                detected: (old(self).detected + one_if(scan(line@) is Some)) as u64,
                year_inferred: (old(self).year_inferred + one_if(
                    year_is_inferred(line@),
                )) as u64,
                ..*old(self)
            }),
    {
        self.sampled = self.sampled + 1;
        if let Some((_, _, inferred)) = parse(line) {
            self.detected = self.detected + 1;
            if inferred {
                self.year_inferred = self.year_inferred + 1;
            }
        }
    }

    /// Takes a line of the sample that could not be read.
    pub fn unreadable_line(&mut self)
        requires
            old(self).wf(),
            old(self).sampled + old(self).read_errors < u64::MAX,
        ensures
            final(self).wf(),
            *final(self) == (Coverage {
                read_errors: (old(self).read_errors + 1) as u64,
                ..*old(self)
            }),
    {
        self.read_errors = self.read_errors + 1;
    }

    /// The line of a file in the report, with the text of its percentage.
    pub fn report(&self, percent: &str, path: &str) -> (r: String)
        ensures
            r@ == coverage_line(*self, percent@, path@),
    {
        let mut out = String::new();
        push_right(&mut out, percent, 9);
        out.append("% ");
        push_right(&mut out, number_text(self.sampled).as_str(), 6);
        out.append("  ");
        push_left(&mut out, path, 20);
        out.append(" (year inferred: ");
        push_decimal(&mut out, self.year_inferred);
        out.append(", read errors: ");
        push_decimal(&mut out, self.read_errors);
        out.append(")");
        assert(out@ =~= coverage_line(*self, percent@, path@));
        out
    }
}

/// The line of a file in the report.
pub open spec fn coverage_line(c: Coverage, percent: Seq<char>, path: Seq<char>) -> Seq<char> {
    right(percent, 9) + "% "@ + right(decimal(c.sampled as int), 6) + "  "@ + left(path, 20)
        + " (year inferred: "@ + decimal(c.year_inferred as int) + ", read errors: "@ + decimal(
        c.read_errors as int,
    ) + ")"@
}

/// The heading of the report.
pub fn coverage_header() -> (r: String)
    ensures
        r@ == left("COVERAGE"@, 10) + " "@ + right("SAMPLED"@, 6) + "  "@ + left("FILE"@, 20),
{
    let mut out = String::new();
    push_left(&mut out, "COVERAGE", 10);
    out.append(" ");
    push_right(&mut out, "SAMPLED", 6);
    out.append("  ");
    push_left(&mut out, "FILE", 20);
    assert(out@ =~= left("COVERAGE"@, 10) + " "@ + right("SAMPLED"@, 6) + "  "@ + left(
        "FILE"@,
        20,
    ));
    out
}

} // verus!
