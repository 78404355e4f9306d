//! Deterministic PRNG (SplitMix64) plus the sampling strategies for both modes.

use vstd::prelude::*;
use vstd::utf8::{decode_utf8, valid_utf8};

use crate::clock::{nanos_since_epoch, system_time, SinceEpoch};
use crate::discovery::{line_feeds, LogFile};
use crate::event::{dataset_family, family_of, RawEvent};
use crate::lines::{
    end_of_line, feeds_before, first_line_from, is_window, lemma_first_line_from, lemma_lines,
    lemma_numbered_line, lemma_window, lines_of, sampled_line,
};
use crate::text::lower;

verus! {

broadcast use vstd::string::group_string_axioms;

/// Why no event can be sampled.
#[derive(Debug)]
pub enum SampleError {
    /// No eligible log files under the directory.
    NoFiles(String),
    /// The file cannot be read, and why.
    FileRead(String, String),
}

impl SampleError {
    pub open spec fn label(self) -> Seq<char> {
        match self {
            SampleError::NoFiles(dir) => "no eligible log files found under "@ + dir@,
            SampleError::FileRead(file, e) => "file "@ + file@ + " is not readable: "@ + e@,
        }
    }

    /// The message of the error.
    pub fn message(&self) -> (r: String)
        ensures
            r@ == self.label(),
    {
        let mut m = String::new();
        match self {
            SampleError::NoFiles(dir) => {
                m.append("no eligible log files found under ");
                m.append(dir.as_str());
            },
            SampleError::FileRead(file, e) => {
                m.append("file ");
                m.append(file.as_str());
                m.append(" is not readable: ");
                m.append(e.as_str());
            },
        }
        assert(m@ =~= self.label());
        m
    }
}

// ---------------------------------------------------------------------------
// SplitMix64
// ---------------------------------------------------------------------------

/// SplitMix64 — small, fast, deterministic.
#[derive(Debug, Clone, Copy)]
pub struct Rng(u64);

impl View for Rng {
    type V = u64;

    /// The state.
    closed spec fn view(&self) -> u64 {
        self.0
    }
}

/// The increment of the state, and the seed when the clock gives none.
pub const GOLDEN: u64 = 0x9E37_79B9_7F4A_7C15;

/// The state after a draw.
pub open spec fn advanced(state: u64) -> u64 {
    state.wrapping_add(GOLDEN)
}

/// What is drawn in a state.
pub open spec fn mixed(state: u64) -> u64 {
    let a = (state ^ (state >> 30)).wrapping_mul(0xBF58_476D_1CE4_E5B9);
    let b = (a ^ (a >> 27)).wrapping_mul(0x94D0_49BB_1331_11EB);
    b ^ (b >> 31)
}

/// The seed that a reading of the clock gives: its low 64 bits.
pub open spec fn seed_of(nanos: Option<u128>) -> u64 {
    match nanos {
        Some(n) => (n % 0x1_0000_0000_0000_0000) as u64,
        None => GOLDEN,
    }
}

/// The seed that a reading of the clock gives: its low 64 bits.
pub fn seed_of_time(nanos: Option<u128>) -> (r: u64)
    ensures
        r == seed_of(nanos),
{
    match nanos {
        Some(n) => (n % 0x1_0000_0000_0000_0000) as u64,
        None => GOLDEN,
    }
}

impl Rng {
    pub fn new(seed: u64) -> (r: Rng)
        ensures
            r@ == seed,
    {
        Rng(seed)
    }

    /// Seed derived from the current time unless one is given.
    pub fn from_seed_opt(seed: Option<u64>) -> (r: Rng)
        ensures
            match seed {
                Some(s) => r@ == s,
                None => exists|c: SinceEpoch| r@ == seed_of(#[trigger] c.count()),
            },
    {
        match seed {
            Some(s) => Rng(s),
            None => {
                let c = nanos_since_epoch(system_time());
                Rng(seed_of_time(c.nanos()))
            },
        }
    }

    /// The next 64 bits.
    pub fn next_u64(&mut self) -> (r: u64)
        ensures
            final(self)@ == advanced(old(self)@),
            r == mixed(advanced(old(self)@)),
    {
        self.0 = self.0.wrapping_add(GOLDEN);
        let mut z: u64 = self.0;
        z = (z ^ (z >> 30)).wrapping_mul(0xBF58_476D_1CE4_E5B9);
        z = (z ^ (z >> 27)).wrapping_mul(0x94D0_49BB_1331_11EB);
        z ^ (z >> 31)
    }

    /// Uniform in [0, n); 0 without a draw when n is 0.
    pub fn below(&mut self, n: u64) -> (r: u64)
        ensures
            r == drawn_below(old(self)@, n),
            final(self)@ == after_below(old(self)@, n),
            n > 0 ==> r < n,
    {
        if n == 0 {
            0
        } else {
            self.next_u64() % n
        }
    }
}

/// What is drawn below `n`.
pub open spec fn drawn_below(state: u64, n: u64) -> u64 {
    if n == 0 {
        0
    } else {
        mixed(advanced(state)) % n
    }
}

/// The state after a draw below `n`.
pub open spec fn after_below(state: u64, n: u64) -> u64 {
    if n == 0 {
        state
    } else {
        advanced(state)
    }
}

// ---------------------------------------------------------------------------
// Lines
// ---------------------------------------------------------------------------

/// Raw event source feeding the pipeline; `None` means exhausted.
pub trait EventSource: Send {
    fn next(&mut self) -> Result<Option<RawEvent>, SampleError>;
}

impl<T: EventSource + ?Sized> EventSource for Box<T> {
    /// What the boxed source does: the result is one that its own `next` gives,
    /// and the box then holds what that call left.
    fn next(&mut self) -> (r: Result<Option<RawEvent>, SampleError>)
        ensures
            exists|inner: &mut T|
                &*inner == &**old(self) && &*final(inner) == &**final(self)
                    && #[trigger] call_ensures(T::next, (inner,), r),
    {
        let inner: &mut T = &mut **self;
        inner.next()
    }
}

/// The bytes without the line feeds and carriage returns at their end.
pub open spec fn line_bytes(b: Seq<u8>) -> Seq<u8>
    decreases b.len(),
{
    if b.len() > 0 && (b.last() == 10 || b.last() == 13) {
        line_bytes(b.drop_last())
    } else {
        b
    }
}

/// The text of bytes, with U+FFFD in the place of what is not UTF-8.
pub uninterp spec fn lossy_text(b: Seq<u8>) -> Seq<char>;

/// `String::from_utf8_lossy`: the text of the bytes where they are UTF-8. Where
/// they are not, which runs of bytes become one U+FFFD each is only named.
#[verifier::external_body]
fn from_utf8_lossy(b: &Vec<u8>) -> (r: String)
    ensures
        r@ == lossy_text(b@),
        valid_utf8(b@) ==> r@ == decode_utf8(b@),
{
    String::from_utf8_lossy(b).into_owned()
}

/// The text of a line as it was read: without its line end, and with U+FFFD in
/// the place of what is not UTF-8.
pub open spec fn line_text(b: Seq<u8>) -> Seq<char> {
    if valid_utf8(line_bytes(b)) {
        decode_utf8(line_bytes(b))
    } else {
        lossy_text(line_bytes(b))
    }
}

pub fn decode_line(bytes: Vec<u8>) -> (r: String)
    ensures
        r@ == line_text(bytes@),
{
    let mut b = bytes;
    while b.len() > 0 && (b[b.len() - 1] == 10 || b[b.len() - 1] == 13)
        invariant
            line_bytes(b@) == line_bytes(bytes@),
        decreases b@.len(),
    {
        let last: Option<u8> = b.pop();
    }
    from_utf8_lossy(&b)
}

// ---------------------------------------------------------------------------
// Replay: one file, sequential stream, optional random start offset, wrap.
// ---------------------------------------------------------------------------

/// A file is large enough for a random start when it has more bytes than this.
pub const MIN_SEEK_SIZE: u64 = 4096;

/// Which of `n` files to replay, if there are any.
pub fn pick_file(rng: &mut Rng, n: usize) -> (r: Option<usize>)
    ensures
        match r {
            Some(i) => n > 0 && i < n && i == drawn_below(old(rng)@, n as u64) && final(rng)@
                == after_below(old(rng)@, n as u64),
            None => n == 0 && final(rng)@ == old(rng)@,
        },
{
    if n == 0 {
        None
    } else {
        Some(rng.below(n as u64) as usize)
    }
}

/// Where in a file of `size` bytes to start: at the first full line at or after
/// a random offset; `None` for its start.
pub fn replay_offset(rng: &mut Rng, random: bool, size: u64) -> (r: Option<u64>)
    ensures
        match r {
            Some(o) => random && size > MIN_SEEK_SIZE && o == drawn_below(
                old(rng)@,
                (size - 1) as u64,
            ) && o < size - 1 && final(rng)@ == after_below(old(rng)@, (size - 1) as u64),
            None => !(random && size > MIN_SEEK_SIZE) && final(rng)@ == old(rng)@,
        },
{
    if random && size > MIN_SEEK_SIZE {
        Some(rng.below(size - 1))
    } else {
        None
    }
}

/// The replay of one file. Whoever reads the file asks [`Self::wants_line`],
/// reads a line, opens the file again for its first line where
/// [`Self::starts_over`] says so, and hands both to [`Self::next`].
pub struct ReplaySampler {
    pub source_file: String,
    pub source_type: &'static str,
    /// The number of the last line that was read: the first has number 1.
    pub line_no: u64,
    pub wrap: bool,
    pub exhausted: bool,
}

/// The text and the number of the next line, if there is one, and the replay
/// after it. `here` is the line that was read, with its line end, or no bytes at
/// the end of the file; `first` is the first line of the file, which counts where
/// the replay wraps around.
pub open spec fn replay_next(s: ReplaySampler, here: Seq<u8>, first: Seq<u8>) -> (
    Option<(Seq<char>, int)>,
    ReplaySampler,
) {
    if s.exhausted {
        (None, s)
    } else if here.len() > 0 {
        (
            Some((line_text(here), s.line_no + 1)),
            ReplaySampler { line_no: (s.line_no + 1) as u64, ..s },
        )
    } else if !s.wrap {
        (None, ReplaySampler { exhausted: true, ..s })
    } else if first.len() > 0 {
        (Some((line_text(first), 1)), ReplaySampler { line_no: 1, ..s })
    } else {
        (None, ReplaySampler { line_no: 0, exhausted: true, ..s })
    }
}

impl ReplaySampler {
    /// The event is of the line, and names the file of the replay.
    pub open spec fn gives(self, r: Option<RawEvent>, line: Option<(Seq<char>, int)>) -> bool {
        match r {
            Some(e) => line == Some((e.line@, e.line_no as int)) && e.source_file@
                == self.source_file@ && e.source_type == self.source_type,
            None => line is None,
        }
    }

    /// The replay of the file with the relative path, from its start.
    pub fn new(rel: &str, wrap: bool) -> (r: ReplaySampler)
        ensures
            r.source_file@ == rel@,
            r.source_type@ == family_of(lower(rel@)),
            r.line_no == 0,
            r.wrap == wrap,
            !r.exhausted,
    {
        ReplaySampler {
            source_file: rel.to_owned(),
            source_type: dataset_family(rel),
            line_no: 0,
            wrap,
            exhausted: false,
        }
    }

    /// The replay starts behind that many lines of the file.
    pub fn start_behind(&mut self, lines: u64)
        ensures
            *final(self) == (ReplaySampler { line_no: lines, ..*old(self) }),
    {
        self.line_no = lines;
    }

    /// Whether there may be another event.
    pub fn wants_line(&self) -> (r: bool)
        ensures
            r == !self.exhausted,
    {
        !self.exhausted
    }

    /// Whether the first line of the file is to be read, where `here` was read.
    pub fn starts_over(&self, here: &Vec<u8>) -> (r: bool)
        ensures
            r == (!self.exhausted && self.wrap && here@.len() == 0),
            !r ==> forall|a: Seq<u8>, b: Seq<u8>| #[trigger]
                replay_next(*self, here@, a) == #[trigger] replay_next(*self, here@, b),
    {
        !self.exhausted && self.wrap && here.len() == 0
    }

    /// The next event. Takes the line that was read, with its line end, or no
    /// bytes at the end of the file; and, where the replay starts over, the first
    /// line of the file.
    pub fn next(&mut self, here: Vec<u8>, first: Vec<u8>) -> (r: Option<RawEvent>)
        requires
            old(self).line_no < u64::MAX,
        ensures
            old(self).gives(r, replay_next(*old(self), here@, first@).0),
            *final(self) == replay_next(*old(self), here@, first@).1,
    {
        if self.exhausted {
            return None;
        }
        if here.len() > 0 {
            self.line_no = self.line_no + 1;
            return Some(self.raw(decode_line(here)));
        }
        if !self.wrap {
            self.exhausted = true;
            return None;
        }
        self.line_no = 0;
        if first.len() == 0 {
            self.exhausted = true;
            return None;
        }
        self.line_no = 1;
        Some(self.raw(decode_line(first)))
    }

    fn raw(&self, line: String) -> (r: RawEvent)
        ensures
            r.line@ == line@,
            r.source_file@ == self.source_file@,
            r.source_type == self.source_type,
            r.line_no == self.line_no,
    {
        RawEvent {
            line,
            source_file: self.source_file.clone(),
            source_type: self.source_type,
            line_no: self.line_no,
        }
    }
}

/// The line behind `pos` lines; no bytes behind the last.
pub open spec fn line_behind(lines: Seq<Seq<u8>>, pos: int) -> Seq<u8> {
    if 0 <= pos < lines.len() {
        lines[pos]
    } else {
        Seq::empty()
    }
}

/// What a call for the next event gives, where the lines of the file are read
/// from behind the first `pos` on: the text and the number of a line, if there
/// is one; with the replay and the lines behind it after the call.
pub open spec fn replay_call(s: ReplaySampler, lines: Seq<Seq<u8>>, pos: int) -> (
    Option<(Seq<char>, int)>,
    ReplaySampler,
    int,
) {
    let here = line_behind(lines, pos);
    let (line, after) = replay_next(s, here, line_behind(lines, 0));
    (
        line,
        after,
        if line is None {
            pos
        } else if here.len() > 0 {
            pos + 1
        } else {
            1
        },
    )
}

/// The replay and the lines behind it after `k` calls.
pub open spec fn after_calls(s: ReplaySampler, lines: Seq<Seq<u8>>, pos: int, k: int) -> (
    ReplaySampler,
    int,
)
    decreases k,
{
    if k <= 0 {
        (s, pos)
    } else {
        let (t, p) = after_calls(s, lines, pos, k - 1);
        (replay_call(t, lines, p).1, replay_call(t, lines, p).2)
    }
}

/// What the `k`th call gives; the first call has number 1.
pub open spec fn replayed(s: ReplaySampler, lines: Seq<Seq<u8>>, pos: int, k: int) -> Option<
    (Seq<char>, int),
> {
    let (t, p) = after_calls(s, lines, pos, k - 1);
    replay_call(t, lines, p).0
}

/// Two states of a replay whose events name the same file.
pub open spec fn of_same_file(a: ReplaySampler, b: ReplaySampler) -> bool {
    a.source_file@ == b.source_file@ && a.source_type == b.source_type
}

proof fn lemma_after_calls_of_wrap(s: ReplaySampler, lines: Seq<Seq<u8>>, pos: int, k: int)
    requires
        s.wrap && !s.exhausted,
        s.line_no == pos,
        0 <= pos <= lines.len(),
        0 < lines.len() <= u64::MAX,
        forall|i: int| 0 <= i < lines.len() ==> (#[trigger] lines[i]).len() > 0,
        0 <= k,
    ensures
        ({
            let (t, p) = after_calls(s, lines, pos, k);
            let n = lines.len() as int;
            &&& t == (ReplaySampler { line_no: t.line_no, ..s })
            &&& t.line_no == p
            &&& p == if k == 0 {
                pos
            } else {
                (pos + k - 1) % n + 1
            }
        }),
    decreases k,
{
    if k > 0 {
        lemma_after_calls_of_wrap(s, lines, pos, k - 1);
        let n = lines.len() as int;
        let (t, p) = after_calls(s, lines, pos, k - 1);
        lemma_next_in_cycle(pos, k, n);
        assert(lines[0].len() > 0);
        if p < n {
            assert(lines[p].len() > 0);
        }
    }
}

/// Which line follows in a cycle of `n`: behind the last comes the first.
proof fn lemma_next_in_cycle(pos: int, k: int, n: int)
    requires
        0 < n,
        0 <= pos <= n,
        0 < k,
    ensures
        ({
            let p = if k == 1 {
                pos
            } else {
                (pos + k - 2) % n + 1
            };
            &&& 0 <= p <= n
            &&& (pos + k - 1) % n == if p == n {
                0
            } else {
                p
            }
        }),
{
    if k == 1 {
        if pos == n {
            vstd::arithmetic::div_mod::lemma_mod_self_0(n);
        } else {
            vstd::arithmetic::div_mod::lemma_small_mod(pos as nat, n as nat);
        }
    } else {
        let a = pos + k - 2;
        let q = a / n;
        let r = a % n;
        vstd::arithmetic::div_mod::lemma_fundamental_div_mod(a, n);
        vstd::arithmetic::div_mod::lemma_mod_bound(a, n);
        if r == n - 1 {
            assert(a + 1 == (q + 1) * n + 0) by (nonlinear_arith)
                requires
                    a == n * q + r,
                    r == n - 1,
            ;
            vstd::arithmetic::div_mod::lemma_fundamental_div_mod_converse(a + 1, n, q + 1, 0);
        } else {
            assert(a + 1 == q * n + (r + 1)) by (nonlinear_arith)
                requires
                    a == n * q + r,
            ;
            vstd::arithmetic::div_mod::lemma_fundamental_div_mod_converse(a + 1, n, q, r + 1);
        }
    }
}

/// A replay that wraps around gives the lines of its file in their order, with
/// their numbers and its name, from the line behind the first `pos` on, and behind
/// the last line the first again, without an end.
pub proof fn lemma_replay_goes_round(s: ReplaySampler, file: Seq<u8>, pos: int, k: int)
    requires
        s.wrap && !s.exhausted,
        s.line_no == pos,
        0 <= pos <= lines_of(file).len(),
        0 < file.len() <= u64::MAX,
        1 <= k,
    ensures
        ({
            let lines = lines_of(file);
            let i = (pos + k - 1) % (lines.len() as int);
            &&& 0 <= i < lines.len()
            &&& replayed(s, lines, pos, k) == Some((line_text(lines[i]), i + 1))
            &&& of_same_file(after_calls(s, lines, pos, k - 1).0, s)
        }),
{
    let lines = lines_of(file);
    let n = lines.len() as int;
    lemma_lines(file);
    lemma_after_calls_of_wrap(s, lines, pos, k - 1);
    lemma_next_in_cycle(pos, k, n);
    let i = (pos + k - 1) % n;
    vstd::arithmetic::div_mod::lemma_mod_bound(pos + k - 1, n);
    assert(lines[i].len() > 0);
}

proof fn lemma_after_calls_without_wrap(s: ReplaySampler, lines: Seq<Seq<u8>>, pos: int, k: int)
    requires
        !s.wrap && !s.exhausted,
        s.line_no == pos,
        0 <= pos <= lines.len() <= u64::MAX,
        forall|i: int| 0 <= i < lines.len() ==> (#[trigger] lines[i]).len() > 0,
        0 <= k,
    ensures
        ({
            let (t, p) = after_calls(s, lines, pos, k);
            if pos + k <= lines.len() {
                p == pos + k && t == (ReplaySampler { line_no: p as u64, ..s })
            } else {
                t.exhausted
            }
        }),
    decreases k,
{
    if k > 0 {
        lemma_after_calls_without_wrap(s, lines, pos, k - 1);
        let (t, p) = after_calls(s, lines, pos, k - 1);
        if pos + k <= lines.len() {
            assert(lines[p].len() > 0);
        }
    }
}

/// A replay that does not wrap around gives the lines of its file in their
/// order, with their numbers and its name, from the line behind the first `pos`
/// on, and nothing behind the last.
pub proof fn lemma_replay_ends(s: ReplaySampler, file: Seq<u8>, pos: int, k: int)
    requires
        !s.wrap && !s.exhausted,
        s.line_no == pos,
        0 <= pos <= lines_of(file).len(),
        file.len() <= u64::MAX,
        1 <= k,
    ensures
        replayed(s, lines_of(file), pos, k) == if pos + k <= lines_of(file).len() {
            Some((line_text(lines_of(file)[pos + k - 1]), pos + k))
        } else {
            None
        },
        pos + k <= lines_of(file).len() ==> of_same_file(
            after_calls(s, lines_of(file), pos, k - 1).0,
            s,
        ),
{
    let lines = lines_of(file);
    lemma_lines(file);
    lemma_after_calls_without_wrap(s, lines, pos, k - 1);
    if pos + k <= lines.len() {
        assert(lines[pos + k - 1].len() > 0);
    }
}

// ---------------------------------------------------------------------------
// Synthetic-today: for each event, pick a random file and a random byte offset
// within it, then read the first full line at or after that offset. This gives
// cross-corpus spread with O(1) memory and no persistent handles; deterministic
// under a fixed seed.
// ---------------------------------------------------------------------------

/// The random places that are tried for an event before the start of a random
/// file is.
pub const PLACES_TRIED: u32 = 8;

/// Where to read a line: in which file, and from which offset on. The first full
/// line at or after the offset counts.
#[derive(Debug, Clone, Copy, PartialEq, Eq, Structural)]
pub struct Place {
    pub file: usize,
    pub offset: u64,
}

/// The sampling of a corpus. For each event, whoever reads the files calls
/// [`Self::begin`], then reads at each [`Self::next_place`] in turn until
/// [`Self::read_from`] finds a line there.
pub struct SyntheticSampler {
    pub files: Vec<LogFile>,
    pub rng: Rng,
    /// The places that were tried for the current event.
    pub tried: u32,
}

/// The place of a try, and the state after it. The first tries are at random
/// offsets, the last is at the start of a random file; an empty file has no
/// place.
pub open spec fn place_of(sizes: Seq<u64>, state: u64, tried: u32) -> (Option<Place>, u64) {
    let i = drawn_below(state, sizes.len() as u64);
    let after = after_below(state, sizes.len() as u64);
    let size = sizes[i as int];
    if size == 0 {
        (None, after)
    } else if tried < PLACES_TRIED {
        (
            Some(Place { file: i as usize, offset: drawn_below(after, (size - 1) as u64) }),
            after_below(after, (size - 1) as u64),
        )
    } else {
        (Some(Place { file: i as usize, offset: 0 }), after)
    }
}

/// The next place from the given try on, with the state and the number of tries
/// after it.
pub open spec fn next_place_of(sizes: Seq<u64>, state: u64, tried: u32) -> (
    Option<Place>,
    u64,
    u32,
)
    decreases PLACES_TRIED + 1 - tried,
{
    if tried > PLACES_TRIED {
        (None, state, tried)
    } else {
        let (p, after) = place_of(sizes, state, tried);
        match p {
            Some(p) => (Some(p), after, (tried + 1) as u32),
            None => next_place_of(sizes, after, (tried + 1) as u32),
        }
    }
}

/// The sizes of files.
pub open spec fn sizes_of(f: Seq<LogFile>) -> Seq<u64> {
    f.map_values(|f: LogFile| f.size)
}

impl SyntheticSampler {
    /// There are files to sample.
    pub open spec fn wf(self) -> bool {
        self.files@.len() > 0
    }

    /// The sampling of the files under the directory `dir`.
    pub fn new(files: Vec<LogFile>, rng: Rng, dir: &str) -> (r: Result<
        SyntheticSampler,
        SampleError,
    >)
        ensures
            match r {
                Ok(s) => s.wf() && s.files@ == files@ && s.rng@ == rng@,
                Err(SampleError::NoFiles(d)) => files@.len() == 0 && d@ == dir@,
                Err(SampleError::FileRead(_, _)) => false,
            },
    {
        if files.len() == 0 {
            return Err(SampleError::NoFiles(dir.to_owned()));
        }
        Ok(SyntheticSampler { files, rng, tried: 0 })
    }

    /// Begins with the next event.
    pub fn begin(&mut self)
        ensures
            *final(self) == (SyntheticSampler { tried: 0, ..*old(self) }),
    {
        self.tried = 0;
    }

    /// The next place to read a line at; `None` when all have been tried.
    pub fn next_place(&mut self) -> (r: Option<Place>)
        requires
            old(self).wf(),
        ensures
            final(self).wf(),
            final(self).files@ == old(self).files@,
            (r, final(self).rng@, final(self).tried) == next_place_of(
                sizes_of(old(self).files@),
                old(self).rng@,
                old(self).tried,
            ),
            r matches Some(p) ==> {
                &&& p.file < old(self).files@.len()
                &&& p.offset < old(self).files@[p.file as int].size
                &&& old(self).tried < final(self).tried <= PLACES_TRIED + 1
            },
    {
        let ghost sizes = sizes_of(self.files@);
        while self.tried <= PLACES_TRIED
            invariant
                self.wf(),
                sizes == sizes_of(self.files@),
                self.files@ == old(self).files@,
                old(self).tried <= self.tried,
                next_place_of(sizes, self.rng@, self.tried) == next_place_of(
                    sizes,
                    old(self).rng@,
                    old(self).tried,
                ),
            decreases PLACES_TRIED + 1 - self.tried,
        {
            let tried: u32 = self.tried;
            let place = self.try_place();
            self.tried = tried + 1;
            if place.is_some() {
                return place;
            }
        }
        None
    }

    fn try_place(&mut self) -> (r: Option<Place>)
        requires
            old(self).wf(),
            old(self).tried <= PLACES_TRIED,
        ensures
            (r, final(self).rng@) == place_of(
                sizes_of(old(self).files@),
                old(self).rng@,
                old(self).tried,
            ),
            final(self).files@ == old(self).files@,
            final(self).tried == old(self).tried,
            r matches Some(p) ==> {
                &&& p.file < old(self).files@.len()
                &&& p.offset < old(self).files@[p.file as int].size
            },
    {
        let i: usize = self.rng.below(self.files.len() as u64) as usize;
        let size: u64 = self.files[i].size;
        assert(sizes_of(self.files@)[i as int] == size);
        if size == 0 {
            return None;
        }
        let offset: u64 = if self.tried < PLACES_TRIED {
            self.rng.below(size - 1)
        } else {
            0
        };
        Some(Place { file: i, offset })
    }

    /// The event of the line with the number, which was read at the place.
    pub fn event(&self, place: Place, line_no: u64, bytes: Vec<u8>) -> (r: RawEvent)
        requires
            place.file < self.files@.len(),
        ensures
            is_event_of(r, self.files@[place.file as int], line_text(bytes@), line_no as int),
    {
        let f = &self.files[place.file];
        RawEvent {
            line: decode_line(bytes),
            source_file: f.rel_str(),
            source_type: dataset_family(f.rel_path.as_str()),
            line_no,
        }
    }

    /// The event of the first full line at or after the place, if there is one.
    /// The file holds `window` from the offset `from` on, behind `feeds` line
    /// feeds: it reaches from before the place, unless that is the start of the
    /// file, to the end of that line or further.
    pub fn read_from(&self, place: Place, from: u64, feeds: u64, window: &Vec<u8>) -> (r: Option<
        RawEvent,
    >)
        requires
            place.file < self.files@.len(),
            from < place.offset || from == 0 && place.offset == 0,
            place.offset - from <= window@.len(),
            feeds + window@.len() < u64::MAX,
        ensures
            read_is(
                r,
                self.files@[place.file as int],
                match sampled_line(window@, place.offset - from) {
                    Some((line, n)) => Some((line, feeds + n)),
                    None => None,
                },
            ),
            forall|content: Seq<u8>| #[trigger]
                is_window(window@, content, from as int, place.offset as int) && feeds
                    == line_feeds(content.take(from as int)) ==> read_is(
                    r,
                    self.files@[place.file as int],
                    sampled_line(content, place.offset as int),
                ),
    {
        proof {
            assert forall|content: Seq<u8>| #[trigger]
                is_window(window@, content, from as int, place.offset as int) && feeds
                    == line_feeds(content.take(from as int)) implies sampled_line(
                content,
                place.offset as int,
            ) == (match sampled_line(window@, place.offset - from) {
                Some((line, n)) => Some((line, feeds + n)),
                None => None,
            }) by {
                lemma_window(window@, content, from as int, place.offset as int);
            }
        }
        let start: usize = if place.offset == 0 {
            0
        } else {
            end_of_line(window, (place.offset - from - 1) as usize)
        };
        if start == window.len() {
            return None;
        }
        let end: usize = end_of_line(window, start);
        let line = copy_bytes(window, start, end);
        let before: u64 = feeds_before(window, start);
        Some(self.event(place, feeds + before + 1, line))
    }
}

fn copy_bytes(b: &Vec<u8>, i: usize, j: usize) -> (r: Vec<u8>)
    requires
        i <= j <= b@.len(),
    ensures
        r@ == b@.subrange(i as int, j as int),
{
    let mut out: Vec<u8> = Vec::new();
    let mut k: usize = i;
    while k < j
        invariant
            i <= k <= j <= b@.len(),
            out@ == b@.subrange(i as int, k as int),
        decreases j - k,
    {
        out.push(b[k]);
        k += 1;
        assert(out@ =~= b@.subrange(i as int, k as int));
    }
    out
}

/// `e` is the event of a line of the file, with its number in it.
pub open spec fn is_event_of(e: RawEvent, file: LogFile, text: Seq<char>, n: int) -> bool {
    &&& e.line@ == text
    &&& e.source_file@ == file.rel_path@
    &&& e.source_type@ == family_of(lower(file.rel_path@))
    &&& e.line_no == n
}

/// `r` is what was read of the file: the event of the line, if there is one.
pub open spec fn read_is(
    r: Option<RawEvent>,
    file: LogFile,
    line: Option<(Seq<u8>, int)>,
) -> bool {
    match (r, line) {
        (Some(e), Some((line, n))) => is_event_of(e, file, line_text(line), n),
        (None, None) => true,
        _ => false,
    }
}

// ---------------------------------------------------------------------------
// Sequences of sampled events
// ---------------------------------------------------------------------------

/// A line of one of the files, with its number.
pub struct SampledLine {
    pub file: int,
    pub line: Seq<u8>,
    pub number: int,
}

/// The sizes of the contents of files.
pub open spec fn lengths(contents: Seq<Seq<u8>>) -> Seq<u64> {
    contents.map_values(|c: Seq<u8>| c.len() as u64)
}

/// The line that is sampled for an event from the given try on, with the state
/// after it.
pub open spec fn sampled_from(contents: Seq<Seq<u8>>, state: u64, tried: u32) -> (
    Option<SampledLine>,
    u64,
)
    decreases PLACES_TRIED + 1 - tried,
{
    let (p, after, t) = next_place_of(lengths(contents), state, tried);
    match p {
        None => (None, after),
        Some(p) => match sampled_line(contents[p.file as int], p.offset as int) {
            Some((line, number)) => (
                Some(SampledLine { file: p.file as int, line, number }),
                after,
            ),
            None => if tried < t <= PLACES_TRIED + 1 {
                sampled_from(contents, after, t)
            } else {
                (None, after)
            },
        },
    }
}

/// The lines of the first `k` events, with the state after them.
pub open spec fn sampled_lines(contents: Seq<Seq<u8>>, state: u64, k: nat) -> (
    Seq<Option<SampledLine>>,
    u64,
)
    decreases k,
{
    if k == 0 {
        (Seq::empty(), state)
    } else {
        let (before, s) = sampled_lines(contents, state, (k - 1) as nat);
        let (line, after) = sampled_from(contents, s, 0);
        (before.push(line), after)
    }
}

proof fn lemma_place_is_in_a_file(contents: Seq<Seq<u8>>, state: u64, tried: u32)
    requires
        0 < contents.len() <= u64::MAX,
        forall|i: int| 0 <= i < contents.len() ==> 0 < (#[trigger] contents[i]).len() <= u64::MAX,
        contents.len() <= usize::MAX,
        tried <= PLACES_TRIED,
    ensures
        ({
            let (p, after, t) = next_place_of(lengths(contents), state, tried);
            &&& p matches Some(p) && p.file < contents.len() && p.offset < contents[p.file as int].len()
            &&& t == tried + 1
            &&& tried == PLACES_TRIED ==> p->0.offset == 0
        }),
{
    let sizes = lengths(contents);
    let i = drawn_below(state, sizes.len() as u64);
    assert(i < sizes.len());
    assert(contents[i as int].len() > 0);
    assert(sizes[i as int] == contents[i as int].len());
}

/// Where no file is empty, every event is a complete line of one of the files,
/// with its number in it.
pub proof fn lemma_sampling_gives_lines(contents: Seq<Seq<u8>>, state: u64, tried: u32)
    requires
        0 < contents.len() <= usize::MAX,
        forall|i: int| 0 <= i < contents.len() ==> 0 < (#[trigger] contents[i]).len() <= u64::MAX,
        tried <= PLACES_TRIED,
    ensures
        sampled_from(contents, state, tried).0 matches Some(x) && {
            &&& 0 <= x.file < contents.len()
            &&& 1 <= x.number <= lines_of(contents[x.file]).len()
            &&& x.line == lines_of(contents[x.file])[x.number - 1]
        },
    decreases PLACES_TRIED - tried,
{
    lemma_place_is_in_a_file(contents, state, tried);
    let (p, after, t) = next_place_of(lengths(contents), state, tried);
    let p = p->0;
    let c = contents[p.file as int];
    lemma_first_line_from(c, p.offset as int);
    if first_line_from(c, p.offset as int) < c.len() {
        lemma_numbered_line(c, first_line_from(c, p.offset as int));
    } else {
        lemma_sampling_gives_lines(contents, after, t);
    }
}

/// What is in the event of a line: its text, the path and the family of its
/// file, and its number.
pub open spec fn event_of(files: Seq<LogFile>, x: SampledLine) -> (
    Seq<char>,
    Seq<char>,
    Seq<char>,
    int,
) {
    let path = files[x.file].rel_path@;
    (line_text(x.line), path, family_of(lower(path)), x.number)
}

/// The events of a sampler over files with these contents, the first `k`.
pub open spec fn events_of(s: SyntheticSampler, contents: Seq<Seq<u8>>, k: nat) -> Seq<
    Option<(Seq<char>, Seq<char>, Seq<char>, int)>,
> {
    sampled_lines(contents, s.rng@, k).0.map_values(
        |x: Option<SampledLine>|
            match x {
                Some(x) => Some(event_of(s.files@, x)),
                None => None,
            },
    )
}

proof fn lemma_sampled_lines(contents: Seq<Seq<u8>>, state: u64, k: nat)
    requires
        0 < contents.len() <= usize::MAX,
        forall|i: int| 0 <= i < contents.len() ==> 0 < (#[trigger] contents[i]).len() <= u64::MAX,
    ensures
        sampled_lines(contents, state, k).0.len() == k,
        forall|i: int|
            0 <= i < k ==> ((#[trigger] sampled_lines(contents, state, k).0[i]) matches Some(x) && 0
                <= x.file < contents.len()),
    decreases k,
{
    if k > 0 {
        lemma_sampled_lines(contents, state, (k - 1) as nat);
        let (before, s) = sampled_lines(contents, state, (k - 1) as nat);
        lemma_sampling_gives_lines(contents, s, 0);
        assert forall|i: int| 0 <= i < k implies ((#[trigger] sampled_lines(
            contents,
            state,
            k,
        ).0[i]) matches Some(x) && 0 <= x.file < contents.len()) by {
            if i < k - 1 {
                assert(sampled_lines(contents, state, k).0[i] == before[i]);
            }
        }
    }
}

/// Samplers with equal seeds over equal files give equal events, one after the
/// other, and do not end.
pub proof fn lemma_sampling_follows_the_seed(
    a: SyntheticSampler,
    b: SyntheticSampler,
    contents: Seq<Seq<u8>>,
    k: nat,
)
    requires
        a.rng@ == b.rng@,
        a.files@.len() == contents.len() == b.files@.len(),
        0 < contents.len() <= usize::MAX,
        forall|i: int| 0 <= i < contents.len() ==> 0 < (#[trigger] contents[i]).len() <= u64::MAX,
        forall|i: int|
            0 <= i < contents.len() ==> (#[trigger] a.files@[i]).rel_path@ == b.files@[i].rel_path@,
    ensures
        events_of(a, contents, k) == events_of(b, contents, k),
        events_of(a, contents, k).len() == k,
        forall|i: int| 0 <= i < k ==> (#[trigger] events_of(a, contents, k)[i]) is Some,
{
    lemma_sampled_lines(contents, a.rng@, k);
    let lines = sampled_lines(contents, a.rng@, k).0;
    assert forall|i: int| 0 <= i < k implies (#[trigger] events_of(a, contents, k)[i]) is Some
        && events_of(a, contents, k)[i] == events_of(b, contents, k)[i] by {
        let x = lines[i]->0;
        assert(lines[i] matches Some(x) && 0 <= x.file < contents.len());
        assert(a.files@[x.file].rel_path@ == b.files@[x.file].rel_path@);
    }
    assert(events_of(a, contents, k) =~= events_of(b, contents, k));
}

} // verus!
