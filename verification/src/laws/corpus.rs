//! The corpus: which files belong to it, in which order they stand, and what is
//! listed of them.

use std::path::PathBuf;

use vstd::prelude::*;

use crate::detectors::scan;
use crate::discovery::{
    excluded, line_feeds, lines_in, path_le, EntryAction, EntryKind, FileVerdict, LogFile, Walk,
};
use crate::inventory::{Coverage, Inventory};
use crate::text::{decimal, ends_with, lower, lower_char};

verus! {

broadcast use vstd::string::group_string_axioms;

// ---------------------------------------------------------------------------
// Files
// ---------------------------------------------------------------------------

/// Hidden files, the README and the label files are excluded, in any case of
/// their letters but for the dot in front.
pub proof fn lemma_documents_are_excluded(base: Seq<char>, suffix: Seq<char>)
    ensures
        excluded(seq!['.'] + base),
        lower(base) == "readme.md"@ ==> excluded(base),
        lower(suffix) == "_label.txt"@ ==> excluded(base + suffix),
        lower(suffix) == "_labels.txt"@ ==> excluded(base + suffix),
{
    reveal_strlit(".");
    assert((seq!['.'] + base).subrange(0, 1) =~= "."@);
    let n = (base + suffix).len() as int;
    assert(lower(base + suffix).subrange(n - suffix.len(), n) =~= lower(suffix));
}

/// No other file is: one that is excluded begins with a dot, is the README, or
/// ends as label files do.
pub proof fn lemma_other_files_are_kept(name: Seq<char>)
    requires
        excluded(name),
    ensures
        name.len() > 0,
        name[0] == '.' || lower(name) == "readme.md"@ || is_label_file(name),
{
    reveal_strlit(".");
    reveal_strlit("readme.md");
    reveal_strlit("_label.txt");
    reveal_strlit("_labels.txt");
    assert(lower(name).len() == name.len());
    if name.len() > 0 && name[0] != '.' && lower(name) != "readme.md"@ {
        assert(!(name.subrange(0, 1) =~= "."@)) by {
            assert(name.subrange(0, 1)[0] == name[0]);
            assert("."@[0] == '.');
        }
        let n = name.len() as int;
        if ends_with(lower(name), "_label.txt"@) {
            assert(lower(name.skip(n - 10)) =~= lower(name).subrange(n - 10, n));
        } else {
            assert(lower(name.skip(n - 11)) =~= lower(name).subrange(n - 11, n));
        }
    }
}

/// The name ends in `_label.txt` or `_labels.txt`, in any case.
pub open spec fn is_label_file(name: Seq<char>) -> bool {
    ||| name.len() >= 10 && lower(name.skip(name.len() - 10)) == "_label.txt"@
    ||| name.len() >= 11 && lower(name.skip(name.len() - 11)) == "_labels.txt"@
}

/// A log file by its usual name is kept: any name that does not begin with a dot
/// and ends in neither `t` nor `d`.
pub proof fn lemma_logs_are_kept(name: Seq<char>)
    requires
        name.len() > 0,
        name[0] != '.',
        lower_char(name.last()) != 't' && lower_char(name.last()) != 'd',
    ensures
        !excluded(name),
{
    if excluded(name) {
        lemma_other_files_are_kept(name);
        reveal_strlit("readme.md");
        reveal_strlit("_label.txt");
        reveal_strlit("_labels.txt");
        let n = name.len() as int;
        assert(lower(name).len() == n);
        assert("readme.md"@[8] == 'd');
        assert("_label.txt"@[9] == 't');
        assert("_labels.txt"@[10] == 't');
        assert(lower(name)[n - 1] == lower_char(name.last()));
        if lower(name.skip(n - 10)) == "_label.txt"@ && n >= 10 {
            assert(lower(name.skip(n - 10))[9] == lower_char(name.last()));
        }
        if lower(name.skip(n - 11)) == "_labels.txt"@ && n >= 11 {
            assert(lower(name.skip(n - 11))[10] == lower_char(name.last()));
        }
    }
}

/// Directories are walked, whatever their names; files are looked at unless they
/// are excluded; and symbolic links and the like are left alone.
pub proof fn lemma_entries_are_walked(
    w: &mut Walk,
    path: PathBuf,
    rel: &str,
    name: &str,
    kind: EntryKind,
    r: EntryAction,
)
    requires
        call_ensures(Walk::entry, (w, path, rel, name, kind), r),
    ensures
        kind == EntryKind::Dir ==> r == EntryAction::Descend && final(w).pending@.len()
            == old(w).pending@.len() + 1 && final(w).pending@.last().0 == path,
        kind == EntryKind::Dir && rel@.len() == 0 ==> final(w).pending@.last().1@ == name@,
        kind == EntryKind::Dir && rel@.len() > 0 ==> final(w).pending@.last().1@ == rel@ + seq!['/']
            + name@,
        kind == EntryKind::File && excluded(name@) ==> r == EntryAction::Skip,
        kind == EntryKind::File && !excluded(name@) ==> r == EntryAction::Inspect,
        kind == EntryKind::Other ==> r == EntryAction::Skip,
        kind != EntryKind::Dir ==> final(w).pending@ == old(w).pending@,
        final(w).files@ == old(w).files@,
{
    assert(rel@.push('/') + name@ =~= rel@ + seq!['/'] + name@);
}

/// A file is kept exactly when it has bytes and can be read; it is then known by
/// its path from the root of the corpus and by its size.
pub proof fn lemma_files_are_kept(
    w: &mut Walk,
    path: PathBuf,
    rel: &str,
    name: &str,
    size: u64,
    readable: bool,
    r: FileVerdict,
)
    requires
        call_ensures(Walk::file, (w, path, rel, name, size, readable), r),
    ensures
        size > 0 && readable <==> r == FileVerdict::Kept,
        size == 0 ==> r == FileVerdict::Empty,
        size > 0 && !readable ==> r == FileVerdict::Unreadable,
        r == FileVerdict::Kept ==> {
            &&& final(w).files@.drop_last() == old(w).files@
            &&& final(w).files@.len() == old(w).files@.len() + 1
            &&& final(w).files@.last().path == path
            &&& final(w).files@.last().size == size
            &&& rel@.len() == 0 ==> final(w).files@.last().rel_path@ == name@
            &&& rel@.len() > 0 ==> final(w).files@.last().rel_path@ == rel@ + seq!['/'] + name@
        },
        r != FileVerdict::Kept ==> final(w).files@ == old(w).files@,
{
    assert(rel@.push('/') + name@ =~= rel@ + seq!['/'] + name@);
}

/// The walk ends with every file that was kept, each once.
pub proof fn lemma_walk_gives_every_file(w: Walk, r: Vec<LogFile>)
    requires
        call_ensures(Walk::finish, (w,), r),
    ensures
        r@.len() == w.files@.len(),
        forall|f: LogFile| #[trigger] r@.contains(f) <==> w.files@.contains(f),
        forall|i: int, j: int|
            0 <= i < j < r@.len() ==> path_le(
                (#[trigger] r@[i]).rel_path@,
                (#[trigger] r@[j]).rel_path@,
            ),
{
    broadcast use vstd::seq_lib::group_to_multiset_ensures;

    assert(r@.to_multiset().len() == r@.len());
    assert(w.files@.to_multiset().len() == w.files@.len());
    assert forall|f: LogFile| #[trigger] r@.contains(f) implies w.files@.contains(f) by {
        assert(r@.to_multiset().count(f) > 0);
    }
    assert forall|f: LogFile| w.files@.contains(f) implies #[trigger] r@.contains(f) by {
        assert(w.files@.to_multiset().count(f) > 0);
    }
}

/// A file is named by its path from the root of the corpus.
pub proof fn lemma_files_are_named_by_path(f: LogFile, r: String)
    requires
        call_ensures(LogFile::rel_str, (&f,), r),
    ensures
        r@ == f.rel_path@,
{
}

/// Two paths are ordered by the first character in which they differ; the
/// separator of directories comes before every other character, so that what is
/// in a directory stands together; and a path comes before those that go on from
/// it.
pub proof fn lemma_paths_are_ordered(
    p: Seq<char>,
    c: char,
    d: char,
    x: Seq<char>,
    y: Seq<char>,
)
    ensures
        path_le(p, p + x),
        x.len() > 0 ==> !path_le(p + x, p),
        c != '/' ==> path_le(p + seq!['/'] + x, p + seq![c] + y) && !path_le(
            p + seq![c] + y,
            p + seq!['/'] + x,
        ),
        c != '/' && d != '/' && (c as int) < (d as int) ==> path_le(
            p + seq![c] + x,
            p + seq![d] + y,
        ) && !path_le(p + seq![d] + y, p + seq![c] + x),
    decreases p.len(),
{
    if p.len() > 0 {
        let q = p.drop_first();
        lemma_paths_are_ordered(q, c, d, x, y);
        assert((p + x).drop_first() =~= q + x);
        assert((p + seq!['/'] + x).drop_first() =~= q + seq!['/'] + x);
        assert((p + seq![c] + x).drop_first() =~= q + seq![c] + x);
        assert((p + seq![c] + y).drop_first() =~= q + seq![c] + y);
        assert((p + seq![d] + y).drop_first() =~= q + seq![d] + y);
    } else {
        assert((p + seq!['/'] + x)[0] == '/');
        assert((p + seq![c] + x)[0] == c);
        assert((p + seq![c] + y)[0] == c);
        assert((p + seq![d] + y)[0] == d);
    }
}

/// A line feed ends a line; bytes behind the last one are one more line.
pub proof fn lemma_lines_end_with_feeds(b: Seq<u8>, c: u8)
    ensures
        lines_in(Seq::empty()) == 0,
        b.len() > 0 && b.last() != 10 ==> lines_in(b.push(10)) == lines_in(b),
        b.len() == 0 || b.last() == 10 ==> lines_in(b.push(c)) == lines_in(b) + 1,
        b.len() > 0 && b.last() != 10 && c != 10 ==> lines_in(b.push(c)) == lines_in(b),
{
    assert(b.push(c).drop_last() =~= b);
    assert(b.push(10).drop_last() =~= b);
    assert(line_feeds(Seq::<u8>::empty()) == 0);
}

// ---------------------------------------------------------------------------
// Lists
// ---------------------------------------------------------------------------

/// The totals of an inventory grow with each file by one file, its bytes and its
/// lines where they are counted; its line ends in its size and its path.
pub proof fn lemma_inventory_adds_up(i: &mut Inventory, f: LogFile, n: Option<u64>, r: String)
    requires
        old(i).files < u64::MAX,
        old(i).bytes + f.size <= u64::MAX,
        n is Some ==> old(i).lines + n->0 <= u64::MAX,
        call_ensures(Inventory::entry, (i, &f, n), r),
    ensures
        final(i).files == old(i).files + 1,
        final(i).bytes == old(i).bytes + f.size,
        n matches Some(k) ==> final(i).lines == old(i).lines + k,
        n is None ==> final(i).lines == old(i).lines,
        final(i).counted == old(i).counted,
        ends_with(r@, decimal(f.size as int) + "  "@ + f.rel_path@),
{
    let tail = decimal(f.size as int) + "  "@ + f.rel_path@;
    assert(r@.subrange(r@.len() - tail.len(), r@.len() as int) =~= tail);
}

/// Of a sample of lines, a line is counted once; a timestamp in it is counted as
/// detected, and one without a year as inferred.
pub proof fn lemma_coverage_adds_up(c: &mut Coverage, line: &str)
    requires
        old(c).sampled < u64::MAX,
        old(c).detected < u64::MAX,
        old(c).year_inferred < u64::MAX,
        call_ensures(Coverage::line, (c, line), ()),
    ensures
        final(c).sampled == old(c).sampled + 1,
        scan(line@) is Some ==> final(c).detected == old(c).detected + 1,
        scan(line@) is None ==> final(c).detected == old(c).detected && final(c).year_inferred
            == old(c).year_inferred,
        final(c).year_inferred == old(c).year_inferred || final(c).year_inferred
            == old(c).year_inferred + 1,
        final(c).read_errors == old(c).read_errors,
{
}

/// A sample is complete when as many lines were read, or could not be, as were
/// asked for.
pub proof fn lemma_samples_are_completed(c: Coverage, sample: u64, r: bool)
    requires
        call_ensures(Coverage::complete, (&c, sample), r),
    ensures
        r <==> c.sampled + c.read_errors >= sample,
{
}

} // verus!
