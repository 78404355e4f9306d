//! Log-file discovery under the configured log directory: which entries of a
//! directory tree are log files, in which order they come, and how many lines
//! they have.

use std::path::PathBuf;
use vstd::prelude::*;

use crate::text::{begins, chars_of, ends, ends_with, lower, lower_chars, same, starts_with};

verus! {

broadcast use vstd::string::group_string_axioms;

/// `std::path::PathBuf`, carried along unread.
#[verifier::external_type_specification]
#[verifier::external_body]
pub struct ExPathBuf(PathBuf);

/// Metadata for one discovered log file.
#[derive(Debug)]
pub struct LogFile {
    pub path: PathBuf,
    /// Path relative to the discovery root (used for source attribution), with
    /// `/` between its parts.
    pub rel_path: String,
    pub size: u64,
}

impl LogFile {
    pub fn rel_str(&self) -> (r: String)
        ensures
            r@ == self.rel_path@,
    {
        self.rel_path.clone()
    }
}

/// Why the log directory cannot be walked.
#[derive(Debug)]
pub enum DiscoveryError {
    MissingDir(String),
    NotADirectory(String),
    /// An I/O error, by its message.
    Io(String),
}

impl DiscoveryError {
    pub open spec fn label(self) -> Seq<char> {
        match self {
            DiscoveryError::MissingDir(dir) => "log directory "@ + dir@ + " does not exist"@,
            DiscoveryError::NotADirectory(dir) => "log directory "@ + dir@
                + " is not a directory"@,
            DiscoveryError::Io(e) => e@,
        }
    }

    /// The message of the error.
    pub fn message(&self) -> (r: String)
        ensures
            r@ == self.label(),
    {
        let mut m = String::new();
        match self {
            DiscoveryError::MissingDir(dir) => {
                m.append("log directory ");
                m.append(dir.as_str());
                m.append(" does not exist");
            },
            DiscoveryError::NotADirectory(dir) => {
                m.append("log directory ");
                m.append(dir.as_str());
                m.append(" is not a directory");
            },
            DiscoveryError::Io(e) => m.append(e.as_str()),
        }
        assert(m@ =~= self.label());
        m
    }
}

// ---------------------------------------------------------------------------
// Which entries are log files
// ---------------------------------------------------------------------------

/// Names that are documentation or metadata, not log events.
pub open spec fn excluded(name: Seq<char>) -> bool {
    ||| starts_with(name, "."@)
    ||| lower(name) == "readme.md"@
    ||| ends_with(lower(name), "_label.txt"@)
    ||| ends_with(lower(name), "_labels.txt"@)
}

pub fn is_excluded_name(name: &str) -> (r: bool)
    ensures
        r == excluded(name@),
{
    let cs = chars_of(name);
    let low = lower_chars(&cs);
    begins(&cs, ".") || same(&low, "readme.md") || ends(&low, "_label.txt") || ends(
        &low,
        "_labels.txt",
    )
}

/// What an entry of a directory is. Symbolic links are none of the first two.
#[derive(Debug, Clone, Copy, PartialEq, Eq, Structural)]
pub enum EntryKind {
    Dir,
    File,
    Other,
}

/// What to do with an entry of a directory.
#[derive(Debug, Clone, Copy, PartialEq, Eq, Structural)]
pub enum EntryAction {
    /// Look at the entries of the directory later.
    Descend,
    /// Look at the size of the file, and try to open it.
    Inspect,
    Skip,
}

/// What to do with an entry: walk directories, look at the files that are not
/// excluded by name, and leave the rest. Symbolic links are not followed.
pub open spec fn entry_action(kind: EntryKind, name: Seq<char>) -> EntryAction {
    match kind {
        EntryKind::Dir => EntryAction::Descend,
        EntryKind::File => if excluded(name) {
            EntryAction::Skip
        } else {
            EntryAction::Inspect
        },
        EntryKind::Other => EntryAction::Skip,
    }
}

/// The relative path of an entry of the directory at `rel`.
pub open spec fn joined(rel: Seq<char>, name: Seq<char>) -> Seq<char> {
    if rel.len() == 0 {
        name
    } else {
        rel.push('/') + name
    }
}

fn join(rel: &str, name: &str) -> (r: String)
    ensures
        r@ == joined(rel@, name@),
{
    if chars_of(rel).len() == 0 {
        return name.to_owned();
    }
    let mut out = rel.to_owned();
    out.push('/');
    out.append(name);
    out
}

/// What became of a file that was inspected.
#[derive(Debug, Clone, Copy, PartialEq, Eq, Structural)]
pub enum FileVerdict {
    Kept,
    Empty,
    Unreadable,
}

/// A file is kept when it is not empty and can be read.
pub open spec fn file_verdict(size: u64, readable: bool) -> FileVerdict {
    if size == 0 {
        FileVerdict::Empty
    } else if !readable {
        FileVerdict::Unreadable
    } else {
        FileVerdict::Kept
    }
}

/// A walk over a directory tree: the directories that are still to be looked
/// at, and the log files found so far.
pub struct Walk {
    pub pending: Vec<(PathBuf, String)>,
    pub files: Vec<LogFile>,
}

impl Walk {
    /// A walk that starts at the root.
    pub fn new(root: PathBuf) -> (r: Walk)
        ensures
            r.pending@.len() == 1,
            r.pending@[0].0 == root,
            r.pending@[0].1@ == ""@,
            r.files@.len() == 0,
    {
        let mut pending: Vec<(PathBuf, String)> = Vec::new();
        pending.push((root, "".to_owned()));
        Walk { pending, files: Vec::new() }
    }

    /// The next directory to look at: the one that was found last.
    pub fn next_dir(&mut self) -> (r: Option<(PathBuf, String)>)
        ensures
            match r {
                Some(d) => old(self).pending@.len() > 0 && d == old(self).pending@.last()
                    && final(self).pending@ == old(self).pending@.drop_last(),
                None => old(self).pending@.len() == 0 && final(self).pending@
                    == old(self).pending@,
            },
            final(self).files@ == old(self).files@,
    {
        self.pending.pop()
    }

    /// An entry of the directory at `rel`: directories are put off, and the
    /// result says what to do.
    pub fn entry(&mut self, path: PathBuf, rel: &str, name: &str, kind: EntryKind) -> (r:
        EntryAction)
        ensures
            r == entry_action(kind, name@),
            final(self).files@ == old(self).files@,
            r != EntryAction::Descend ==> final(self).pending@ == old(self).pending@,
            r == EntryAction::Descend ==> {
                &&& final(self).pending@.len() == old(self).pending@.len() + 1
                &&& final(self).pending@.drop_last() == old(self).pending@
                &&& final(self).pending@.last().0 == path
                &&& final(self).pending@.last().1@ == joined(rel@, name@)
            },
    {
        match kind {
            EntryKind::Dir => {
                self.pending.push((path, join(rel, name)));
                assert(self.pending@.drop_last() =~= old(self).pending@);
                EntryAction::Descend
            },
            EntryKind::File => if is_excluded_name(name) {
                EntryAction::Skip
            } else {
                EntryAction::Inspect
            },
            EntryKind::Other => EntryAction::Skip,
        }
    }

    /// A file of the directory at `rel` that was inspected, where `readable`
    /// says that it could be opened: it is kept, or the result says why not.
    pub fn file(&mut self, path: PathBuf, rel: &str, name: &str, size: u64, readable: bool) -> (r:
        FileVerdict)
        ensures
            r == file_verdict(size, readable),
            final(self).pending@ == old(self).pending@,
            r != FileVerdict::Kept ==> final(self).files@ == old(self).files@,
            r == FileVerdict::Kept ==> {
                &&& final(self).files@.len() == old(self).files@.len() + 1
                &&& final(self).files@.drop_last() == old(self).files@
                &&& final(self).files@.last().path == path
                &&& final(self).files@.last().rel_path@ == joined(rel@, name@)
                &&& final(self).files@.last().size == size
            },
    {
        if size == 0 {
            return FileVerdict::Empty;
        }
        if !readable {
            return FileVerdict::Unreadable;
        }
        self.files.push(LogFile { path, rel_path: join(rel, name), size });
        assert(self.files@.drop_last() =~= old(self).files@);
        FileVerdict::Kept
    }

    /// The log files that were found, sorted by relative path for determinism.
    pub fn finish(self) -> (r: Vec<LogFile>)
        ensures
            sorted(r@),
            r@.to_multiset() == self.files@.to_multiset(),
    {
        sort_files(self.files)
    }
}

// ---------------------------------------------------------------------------
// The order of paths
// ---------------------------------------------------------------------------

/// The rank of a character in a path: the separator comes before everything
/// else, so that paths are compared part by part.
pub open spec fn rank(c: char) -> int {
    if c == '/' {
        -1
    } else {
        c as int
    }
}

/// The path `a` does not come after `b`.
pub open spec fn path_le(a: Seq<char>, b: Seq<char>) -> bool
    decreases a.len(),
{
    if a.len() == 0 {
        true
    } else if b.len() == 0 {
        false
    } else if rank(a[0]) != rank(b[0]) {
        rank(a[0]) < rank(b[0])
    } else {
        path_le(a.drop_first(), b.drop_first())
    }
}

/// Every file comes before those behind it.
pub open spec fn sorted(f: Seq<LogFile>) -> bool {
    forall|i: int, j: int|
        0 <= i < j < f.len() ==> path_le((#[trigger] f[i]).rel_path@, (#[trigger] f[j]).rel_path@)
}

/// The order of paths is total.
pub proof fn lemma_path_le_total(a: Seq<char>, b: Seq<char>)
    ensures
        path_le(a, b) || path_le(b, a),
    decreases a.len(),
{
    if a.len() > 0 && b.len() > 0 && rank(a[0]) == rank(b[0]) {
        lemma_path_le_total(a.drop_first(), b.drop_first());
    }
}

/// The order of paths is transitive.
pub proof fn lemma_path_le_transitive(a: Seq<char>, b: Seq<char>, c: Seq<char>)
    requires
        path_le(a, b),
        path_le(b, c),
    ensures
        path_le(a, c),
    decreases a.len(),
{
    if a.len() > 0 && b.len() > 0 && c.len() > 0 && rank(a[0]) == rank(b[0]) && rank(b[0]) == rank(
        c[0],
    ) {
        lemma_path_le_transitive(a.drop_first(), b.drop_first(), c.drop_first());
    }
}

proof fn lemma_rank_is_injective(a: char, b: char)
    ensures
        rank(a) == rank(b) ==> a == b,
{
}

/// Paths that come before one another are the same.
pub proof fn lemma_path_le_antisymmetric(a: Seq<char>, b: Seq<char>)
    requires
        path_le(a, b),
        path_le(b, a),
    ensures
        a == b,
    decreases a.len(),
{
    if a.len() > 0 && b.len() > 0 {
        lemma_rank_is_injective(a[0], b[0]);
        lemma_path_le_antisymmetric(a.drop_first(), b.drop_first());
        assert(a =~= seq![a[0]] + a.drop_first());
        assert(b =~= seq![b[0]] + b.drop_first());
    } else {
        assert(a =~= b);
    }
}

fn rank_before(a: char, b: char) -> (r: bool)
    ensures
        r == (rank(a) < rank(b)),
{
    if b == '/' {
        false
    } else if a == '/' {
        true
    } else {
        a < b
    }
}

fn paths_in_order(a: &Vec<char>, b: &Vec<char>) -> (r: bool)
    ensures
        r == path_le(a@, b@),
{
    let mut i: usize = 0;
    assert(a@.skip(0) =~= a@);
    assert(b@.skip(0) =~= b@);
    loop
        invariant
            i <= a@.len(),
            i <= b@.len(),
            path_le(a@, b@) == path_le(a@.skip(i as int), b@.skip(i as int)),
        decreases a@.len() - i,
    {
        if i == a.len() {
            return true;
        }
        if i == b.len() {
            return false;
        }
        if rank_before(a[i], b[i]) {
            return true;
        }
        if rank_before(b[i], a[i]) {
            return false;
        }
        assert(a@.skip(i as int).drop_first() =~= a@.skip(i + 1));
        assert(b@.skip(i as int).drop_first() =~= b@.skip(i + 1));
        i += 1;
    }
}

/// The position in front of the first file that does not come before `path`, in
/// files that are sorted.
fn insertion_point(f: &Vec<LogFile>, path: &Vec<char>) -> (r: usize)
    requires
        sorted(f@),
    ensures
        r <= f@.len(),
        forall|j: int| 0 <= j < r ==> path_le((#[trigger] f@[j]).rel_path@, path@),
        forall|j: int| r <= j < f@.len() ==> path_le(path@, (#[trigger] f@[j]).rel_path@),
{
    let mut n: usize = 0;
    while n < f.len()
        invariant
            n <= f@.len(),
            sorted(f@),
            forall|j: int| 0 <= j < n ==> path_le((#[trigger] f@[j]).rel_path@, path@),
        decreases f@.len() - n,
    {
        if paths_in_order(path, &chars_of(f[n].rel_path.as_str())) {
            proof {
                assert forall|j: int| n <= j < f@.len() implies path_le(
                    path@,
                    (#[trigger] f@[j]).rel_path@,
                ) by {
                    if j > n {
                        assert(path_le(f@[n as int].rel_path@, f@[j].rel_path@));
                        lemma_path_le_transitive(
                            path@,
                            f@[n as int].rel_path@,
                            f@[j].rel_path@,
                        );
                    }
                }
            }
            return n;
        }
        proof {
            lemma_path_le_total(f@[n as int].rel_path@, path@);
        }
        n += 1;
    }
    n
}

/// The files sorted by relative path.
pub fn sort_files(files: Vec<LogFile>) -> (r: Vec<LogFile>)
    ensures
        sorted(r@),
        r@.to_multiset() == files@.to_multiset(),
{
    broadcast use vstd::seq_lib::group_to_multiset_ensures;

    let mut rest = files;
    let mut out: Vec<LogFile> = Vec::new();
    let ghost all = files@.to_multiset();
    assert(rest@.to_multiset().add(out@.to_multiset()) =~= all);
    while rest.len() > 0
        invariant
            sorted(out@),
            rest@.to_multiset().add(out@.to_multiset()) == all,
        decreases rest@.len(),
    {
        let ghost before = rest@;
        let ghost done = out@;
        if let Some(f) = rest.pop() {
            let i: usize = insertion_point(&out, &chars_of(f.rel_path.as_str()));
            proof {
                vstd::seq_lib::to_multiset_insert(out@, i as int, f);
                assert(before =~= rest@.push(f));
                vstd::seq_lib::to_multiset_build(rest@, f);
                assert(all == before.to_multiset().add(done.to_multiset()));
            }
            out.insert(i, f);
            assert(rest@.to_multiset().add(out@.to_multiset()) =~= all);
            assert forall|a: int, b: int| 0 <= a < b < out@.len() implies path_le(
                (#[trigger] out@[a]).rel_path@,
                (#[trigger] out@[b]).rel_path@,
            ) by {
                let oa = if a < i {
                    a
                } else {
                    a - 1
                };
                let ob = if b < i {
                    b
                } else {
                    b - 1
                };
                if a != i && b != i {
                    assert(out@[a] == done[oa] && out@[b] == done[ob]);
                } else if a == i {
                    assert(out@[b] == done[ob]);
                } else {
                    assert(out@[a] == done[oa]);
                }
            }
        }
    }
    assert(rest@.to_multiset().len() == 0);
    assert(out@.to_multiset() =~= all);
    out
}

// ---------------------------------------------------------------------------
// Lines
// ---------------------------------------------------------------------------

/// The number of line feeds.
pub open spec fn line_feeds(b: Seq<u8>) -> int
    decreases b.len(),
{
    if b.len() == 0 {
        0
    } else {
        line_feeds(b.drop_last()) + if b.last() == 10 {
            1int
        } else {
            0
        }
    }
}

/// The number of lines: each ends with a line feed, but for the last, which may
/// end with the text.
pub open spec fn lines_in(b: Seq<u8>) -> int {
    line_feeds(b) + if b.len() > 0 && b.last() != 10 {
        1int
    } else {
        0
    }
}

/// The lines of a file that comes in chunks.
pub struct LineCounter {
    feeds: u64,
    open: bool,
}

impl LineCounter {
    /// The counter has seen the bytes.
    pub closed spec fn counts(self, seen: Seq<u8>) -> bool {
        &&& self.feeds == line_feeds(seen)
        &&& self.open == (seen.len() > 0 && seen.last() != 10)
    }

    pub fn new() -> (r: LineCounter)
        ensures
            r.counts(Seq::empty()),
    {
        LineCounter { feeds: 0, open: false }
    }

    /// Takes the next chunk of the file.
    pub fn take(&mut self, chunk: &[u8])
        ensures
            forall|seen: Seq<u8>|
                old(self).counts(seen) && line_feeds(seen + chunk@) <= u64::MAX
                    ==> #[trigger] final(self).counts(seen + chunk@),
    {
        let ghost start = *self;
        let mut i: usize = 0;
        assert forall|seen: Seq<u8>| start.counts(seen) implies #[trigger] self.counts(
            seen + chunk@.take(0),
        ) by {
            assert(seen + chunk@.take(0) =~= seen);
        }
        while i < chunk.len()
            invariant
                i <= chunk@.len(),
                forall|seen: Seq<u8>|
                    start.counts(seen) && line_feeds(seen + chunk@.take(i as int)) <= u64::MAX
                        ==> #[trigger] self.counts(seen + chunk@.take(i as int)),
            decreases chunk@.len() - i,
        {
            let ghost before = *self;
            let feed = chunk[i] == 10;
            if feed {
                self.feeds = self.feeds.wrapping_add(1);
            }
            self.open = !feed;
            proof {
                assert forall|seen: Seq<u8>|
                    start.counts(seen) && line_feeds(seen + chunk@.take(i + 1))
                        <= u64::MAX implies #[trigger] self.counts(
                    seen + chunk@.take(i + 1),
                ) by {
                    let a = seen + chunk@.take(i as int);
                    let b = seen + chunk@.take(i + 1);
                    assert(b.drop_last() =~= a);
                    assert(b.last() == chunk@[i as int]);
                    assert(before.counts(a));
                    lemma_feeds_not_negative(a);
                }
            }
            i += 1;
        }
        assert(chunk@.take(chunk@.len() as int) =~= chunk@);
    }

    /// The number of lines in the chunks that were taken.
    pub fn lines(&self) -> (r: u64)
        ensures
            forall|seen: Seq<u8>|
                #[trigger] self.counts(seen) && lines_in(seen) <= u64::MAX ==> r == lines_in(seen),
    {
        if self.open {
            self.feeds.wrapping_add(1)
        } else {
            self.feeds
        }
    }
}

/// Line feeds add up.
pub proof fn lemma_feeds_add(a: Seq<u8>, b: Seq<u8>)
    ensures
        line_feeds(a + b) == line_feeds(a) + line_feeds(b),
    decreases b.len(),
{
    if b.len() == 0 {
        assert(a + b =~= a);
    } else {
        assert((a + b).drop_last() =~= a + b.drop_last());
        lemma_feeds_add(a, b.drop_last());
    }
}

/// There are no more line feeds than bytes.
pub proof fn lemma_feeds_not_negative(b: Seq<u8>)
    ensures
        0 <= line_feeds(b) <= b.len(),
    decreases b.len(),
{
    if b.len() > 0 {
        lemma_feeds_not_negative(b.drop_last());
    }
}

} // verus!
