//! Lines in the bytes of a file: where they start and end, and their numbers.

use vstd::prelude::*;

use crate::discovery::{lemma_feeds_add, lemma_feeds_not_negative, line_feeds, lines_in};

verus! {

/// The position behind the line that the byte at `s` belongs to: behind the
/// next line feed, or the end.
pub open spec fn line_end(b: Seq<u8>, s: int) -> int
    decreases b.len() - s,
{
    if s < 0 || s >= b.len() {
        b.len() as int
    } else if b[s] == 10 {
        s + 1
    } else {
        line_end(b, s + 1)
    }
}

/// The line that starts at `s`, with its line end.
pub open spec fn line_at(b: Seq<u8>, s: int) -> Seq<u8> {
    b.subrange(s, line_end(b, s))
}

/// The start of the first full line at or after the offset; the end where there
/// is none.
pub open spec fn first_line_from(b: Seq<u8>, offset: int) -> int {
    if offset <= 0 {
        0
    } else {
        line_end(b, offset - 1)
    }
}

/// The number of the line that starts at `s`; the first line has number 1.
pub open spec fn line_number(b: Seq<u8>, s: int) -> int {
    line_feeds(b.take(s)) + 1
}

/// A line starts at `s`.
pub open spec fn starts_line(b: Seq<u8>, s: int) -> bool {
    0 <= s < b.len() && (s == 0 || b[s - 1] == 10)
}

/// The lines in their order, with their line ends.
pub open spec fn lines_of(b: Seq<u8>) -> Seq<Seq<u8>>
    decreases b.len(),
    via lines_of_shrinks
{
    if b.len() == 0 {
        Seq::empty()
    } else {
        seq![line_at(b, 0)] + lines_of(b.skip(line_end(b, 0)))
    }
}

#[via_fn]
proof fn lines_of_shrinks(b: Seq<u8>) {
    if b.len() > 0 {
        lemma_line_end(b, 0);
    }
}

/// A line ends behind its start and not behind the end, and has no line feed but
/// its last byte.
pub proof fn lemma_line_end(b: Seq<u8>, s: int)
    requires
        0 <= s < b.len(),
    ensures
        s < line_end(b, s) <= b.len(),
        forall|k: int| s <= k < line_end(b, s) - 1 ==> b[k] != 10,
        line_end(b, s) < b.len() ==> b[line_end(b, s) - 1] == 10,
    decreases b.len() - s,
{
    reveal_with_fuel(line_end, 2);
    if b[s] != 10 && s + 1 < b.len() {
        lemma_line_end(b, s + 1);
    }
}

/// Where there is a full line at or after an offset, a line starts there, and
/// none starts between.
pub proof fn lemma_first_line_from(b: Seq<u8>, offset: int)
    requires
        0 <= offset <= b.len(),
    ensures
        offset <= first_line_from(b, offset) <= b.len(),
        first_line_from(b, offset) < b.len() ==> starts_line(b, first_line_from(b, offset)),
        forall|s: int| offset <= s && #[trigger] starts_line(b, s) ==> first_line_from(b, offset) <= s,
{
    if offset > 0 {
        lemma_line_end(b, offset - 1);
    }
}

/// The lines of a file are not empty, and there are some unless it is.
pub proof fn lemma_lines(b: Seq<u8>)
    ensures
        b.len() > 0 <==> lines_of(b).len() > 0,
        forall|k: int| 0 <= k < lines_of(b).len() ==> (#[trigger] lines_of(b)[k]).len() > 0,
        lines_of(b).len() <= b.len(),
    decreases b.len(),
{
    if b.len() > 0 {
        lemma_line_end(b, 0);
        let rest = b.skip(line_end(b, 0));
        lemma_lines(rest);
        assert forall|k: int| 0 <= k < lines_of(b).len() implies (#[trigger] lines_of(b)[k]).len()
            > 0 by {
            if k > 0 {
                assert(lines_of(b)[k] == lines_of(rest)[k - 1]);
            }
        }
    }
}

/// The position behind the line that the byte at `s` belongs to.
pub fn end_of_line(b: &Vec<u8>, s: usize) -> (r: usize)
    requires
        s <= b@.len(),
    ensures
        r == line_end(b@, s as int),
        s <= r <= b@.len(),
{
    let mut i: usize = s;
    while i < b.len()
        invariant
            s <= i <= b@.len(),
            line_end(b@, s as int) == line_end(b@, i as int),
        decreases b@.len() - i,
    {
        if b[i] == 10 {
            return i + 1;
        }
        i += 1;
    }
    i
}

/// The line feeds among the first `n` bytes.
pub fn feeds_before(b: &Vec<u8>, n: usize) -> (r: u64)
    requires
        n <= b@.len(),
    ensures
        r == line_feeds(b@.take(n as int)),
        r <= n,
{
    let mut i: usize = 0;
    let mut count: u64 = 0;
    while i < n
        invariant
            i <= n <= b@.len(),
            count == line_feeds(b@.take(i as int)),
            count <= i,
        decreases n - i,
    {
        assert(b@.take(i + 1).drop_last() =~= b@.take(i as int));
        if b[i] == 10 {
            count = count + 1;
        }
        i += 1;
    }
    count
}

// ---------------------------------------------------------------------------
// What is read of a file
// ---------------------------------------------------------------------------

/// The first full line at or after the offset, with its number, if there is one.
pub open spec fn sampled_line(file: Seq<u8>, offset: int) -> Option<(Seq<u8>, int)> {
    let s = first_line_from(file, offset);
    if s < file.len() {
        Some((line_at(file, s), line_number(file, s)))
    } else {
        None
    }
}

/// `window` is what stands in the file from `from` on, in front of the offset
/// unless that is the start, up to the end of the first full line at or after
/// the offset or further.
pub open spec fn is_window(window: Seq<u8>, file: Seq<u8>, from: int, offset: int) -> bool {
    let end = from + window.len();
    &&& 0 <= from
    &&& from < offset || from == 0 && offset == 0
    &&& offset <= end <= file.len()
    &&& window == file.subrange(from, end)
    &&& line_end(file, first_line_from(file, offset)) <= end
}

proof fn lemma_line_end_in_window(window: Seq<u8>, file: Seq<u8>, from: int, s: int)
    requires
        0 <= from,
        from + window.len() <= file.len(),
        window == file.subrange(from, from + window.len()),
        0 <= s < window.len(),
        line_end(file, from + s) <= from + window.len(),
    ensures
        line_end(window, s) + from == line_end(file, from + s),
    decreases window.len() - s,
{
    reveal_with_fuel(line_end, 2);
    assert(window[s] == file[from + s]);
    if file[from + s] != 10 && s + 1 < window.len() {
        lemma_line_end_in_window(window, file, from, s + 1);
    } else if file[from + s] != 10 {
        if from + s + 1 < file.len() {
            lemma_line_end(file, from + s + 1);
        }
    }
}

proof fn lemma_no_feeds(b: Seq<u8>)
    requires
        forall|k: int| 0 <= k < b.len() ==> b[k] != 10,
    ensures
        line_feeds(b) == 0,
    decreases b.len(),
{
    if b.len() > 0 {
        lemma_no_feeds(b.drop_last());
    }
}

/// The lines are as many as are counted.
pub proof fn lemma_lines_are_counted(b: Seq<u8>)
    ensures
        lines_of(b).len() == lines_in(b),
    decreases b.len(),
{
    if b.len() > 0 {
        let e = line_end(b, 0);
        lemma_line_end(b, 0);
        let rest = b.skip(e);
        lemma_lines_are_counted(rest);
        assert(b =~= b.take(e) + rest);
        lemma_feeds_add(b.take(e), rest);
        lemma_no_feeds(b.take(e).drop_last());
    }
}

/// The number of a line is its place among the lines of the file.
pub proof fn lemma_numbered_line(b: Seq<u8>, s: int)
    requires
        starts_line(b, s),
    ensures
        1 <= line_number(b, s) <= lines_of(b).len(),
        lines_of(b)[line_number(b, s) - 1] == line_at(b, s),
    decreases b.len(),
{
    if s == 0 {
        assert(b.take(0) =~= Seq::empty());
    } else {
        let e = line_end(b, 0);
        lemma_line_end(b, 0);
        assert(e <= s);
        let rest = b.skip(e);
        assert(rest =~= b.subrange(e, e + rest.len()));
        lemma_numbered_line(rest, s - e);
        lemma_line_end(b, s);
        lemma_line_end_in_window(rest, b, e, s - e);
        assert(line_at(rest, s - e) =~= line_at(b, s));
        assert(b.take(s) =~= b.take(e) + rest.take(s - e));
        lemma_feeds_add(b.take(e), rest.take(s - e));
        lemma_no_feeds(b.take(e).drop_last());
        assert(b.take(e).last() == 10);
        assert(lines_of(b)[line_number(b, s) - 1] == lines_of(rest)[line_number(rest, s - e) - 1]);
    }
}

/// The line that is sampled of a window is that of the file, and its number is
/// that in the window, counted on from the lines before the window.
pub proof fn lemma_window(window: Seq<u8>, file: Seq<u8>, from: int, offset: int)
    requires
        is_window(window, file, from, offset),
    ensures
        sampled_line(file, offset) == (match sampled_line(window, offset - from) {
            Some((line, n)) => Some((line, line_feeds(file.take(from)) + n)),
            None => None,
        }),
{
    let s = first_line_from(file, offset);
    let end = from + window.len();
    let t = first_line_from(window, offset - from);
    if offset > 0 {
        lemma_line_end(file, offset - 1);
        if s < file.len() {
            lemma_line_end(file, s);
        }
        assert(s <= end);
        lemma_line_end_in_window(window, file, from, offset - 1 - from);
    }
    assert(t + from == s);
    if s < file.len() {
        lemma_line_end(file, s);
        lemma_line_end_in_window(window, file, from, t);
        assert(line_at(file, s) =~= line_at(window, t));
        assert(file.take(s) =~= file.take(from) + window.take(t));
        lemma_feeds_add(file.take(from), window.take(t));
    }
}

// ---------------------------------------------------------------------------
// Line feeds before the blocks of a file
// ---------------------------------------------------------------------------

/// The bytes in a block of a file.
pub const BLOCK: u64 = 65536;

/// The line feeds in front of each of the first blocks of a file, so that lines
/// can be numbered without reading the file from its start.
pub struct LineIndex {
    feeds: Vec<u64>,
    covered: u64,
}

impl LineIndex {
    /// The index is one of the file.
    pub closed spec fn indexes(self, file: Seq<u8>) -> bool {
        &&& self.feeds@.len() >= 1
        &&& self.covered == (self.feeds@.len() - 1) * BLOCK
        &&& self.covered <= file.len()
        &&& forall|k: int|
            0 <= k < self.feeds@.len() ==> #[trigger] self.feeds@[k] == line_feeds(
                file.take(k * BLOCK),
            )
    }

    /// The bytes of the file that have been counted.
    pub closed spec fn covers(self) -> u64 {
        self.covered
    }

    /// Nothing of the file has been counted.
    pub fn new() -> (r: LineIndex)
        ensures
            forall|file: Seq<u8>| #[trigger] r.indexes(file),
            r.covers() == 0,
    {
        let mut feeds: Vec<u64> = Vec::new();
        feeds.push(0);
        let r = LineIndex { feeds, covered: 0 };
        assert forall|file: Seq<u8>| #[trigger] r.indexes(file) by {
            assert(file.take(0) =~= Seq::empty());
        }
        r
    }

    /// The bytes of the file that have been counted.
    pub fn covered(&self) -> (r: u64)
        ensures
            r == self.covers(),
    {
        self.covered
    }

    /// Takes the block of the file that follows those that have been counted.
    pub fn extend(&mut self, block: &Vec<u8>)
        requires
            block@.len() == BLOCK,
        ensures
            forall|file: Seq<u8>|
                old(self).indexes(file) && file.len() <= u64::MAX && old(self).covers() + BLOCK
                    <= file.len() && block@ == file.subrange(
                    old(self).covers() as int,
                    old(self).covers() + BLOCK,
                ) ==> #[trigger] final(self).indexes(file) && final(self).covers()
                    == old(self).covers() + BLOCK,
    {
        let ghost before = *self;
        if self.feeds.len() == 0 || self.covered > u64::MAX - BLOCK {
            return;
        }
        let last: u64 = self.feeds[self.feeds.len() - 1];
        let more: u64 = feeds_before(block, block.len());
        assert(block@.take(block@.len() as int) =~= block@);
        self.feeds.push(last.wrapping_add(more));
        self.covered = self.covered + BLOCK;
        assert forall|file: Seq<u8>|
            before.indexes(file) && file.len() <= u64::MAX && before.covers() + BLOCK <= file.len()
                && block@ == file.subrange(
                before.covers() as int,
                before.covers() + BLOCK,
            ) implies #[trigger] self.indexes(file) by {
            let n = before.feeds@.len();
            let c = before.covered as int;
            assert(file.take(c + BLOCK) =~= file.take(c) + block@);
            lemma_feeds_add(file.take(c), block@);
            lemma_feeds_not_negative(file.take(c + BLOCK));
            assert(before.feeds@[n - 1] == line_feeds(file.take((n - 1) * BLOCK)));
            assert forall|k: int| 0 <= k < self.feeds@.len() implies #[trigger] self.feeds@[k]
                == line_feeds(file.take(k * BLOCK)) by {
                if k < n {
                    assert(self.feeds@[k] == before.feeds@[k]);
                } else {
                    assert(k * BLOCK == c + BLOCK);
                }
            }
        }
    }

    /// The start of the block of the offset, or of the last block that has been
    /// reached, and the line feeds in front of it.
    pub fn block_of(&self, offset: u64) -> (r: (u64, u64))
        ensures
            r.0 <= offset,
            forall|file: Seq<u8>| #[trigger]
                self.indexes(file) ==> {
                    &&& r.0 <= self.covers()
                    &&& r.1 == line_feeds(file.take(r.0 as int))
                    &&& offset < self.covers() + BLOCK ==> offset - r.0 < BLOCK
                },
    {
        let reached: usize = self.feeds.len();
        if reached == 0 {
            return (0, 0);
        }
        let wanted: u64 = offset / BLOCK;
        let k: usize = if wanted < reached as u64 {
            wanted as usize
        } else {
            reached - 1
        };
        proof {
            assert(k <= wanted);
            assert(k * BLOCK <= offset);
        }
        (k as u64 * BLOCK, self.feeds[k])
    }
}

} // verus!
