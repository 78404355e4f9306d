//! Draws, and the places and lines that they lead to.

use vstd::prelude::*;

use vstd::arithmetic::div_mod::{
    lemma_mod_multiples_vanish, lemma_mul_mod_noop_left, lemma_small_mod,
};
use vstd::utf8::{decode_utf8_encode_utf8, encode_utf8, valid_utf8};

use crate::discovery::{line_feeds, LogFile};
use crate::lines::{
    first_line_from, lemma_first_line_from, lemma_line_end, line_end, sampled_line, starts_line,
};
use crate::event::{family_of, RawEvent};
use crate::sampling::{
    advanced, decode_line, line_bytes, line_text, mixed, next_place_of, pick_file, place_of,
    replay_offset, seed_of_time, sizes_of, Place, ReplaySampler, Rng, SampleError, SyntheticSampler,
};
use crate::text::lower;

verus! {

/// The number of 64-bit values.
pub open spec fn two_64() -> int {
    0x1_0000_0000_0000_0000
}

/// To multiply by a number and then by its inverse changes nothing.
proof fn lemma_unmultiplied(y: u64, c: u64, inverse: u64, k: int)
    requires
        c * inverse == k * two_64() + 1,
    ensures
        y.wrapping_mul(inverse).wrapping_mul(c) == y,
{
    let x = y.wrapping_mul(inverse);
    assert(x == (y * inverse) % two_64());
    assert(x.wrapping_mul(c) == (x * c) % two_64());
    lemma_mul_mod_noop_left(y * inverse, c as int, two_64());
    assert(y * inverse * c == two_64() * (y * k) + y) by (nonlinear_arith)
        requires
            c * inverse == k * two_64() + 1,
    ;
    lemma_mod_multiples_vanish(y * k, y as int, two_64());
    lemma_small_mod(y as nat, two_64() as nat);
}

/// Every 64-bit value is drawn in some state.
#[verifier::rlimit(40)]
pub proof fn lemma_every_value_is_drawn(d: u64)
    ensures
        exists|state: u64| #[trigger] mixed(advanced(state)) == d,
{
    let b = d ^ (d >> 31) ^ (d >> 62);
    assert(b ^ (b >> 31) == d) by (bit_vector)
        requires
            b == d ^ (d >> 31) ^ (d >> 62),
    ;
    let y = b.wrapping_mul(0x3196_42B2_D24D_8EC3);
    lemma_unmultiplied(b, 0x94D0_49BB_1331_11EB, 0x3196_42B2_D24D_8EC3, 2077064247507883091);
    let a = y ^ (y >> 27) ^ (y >> 54);
    assert(a ^ (a >> 27) == y) by (bit_vector)
        requires
            a == y ^ (y >> 27) ^ (y >> 54),
    ;
    let x = a.wrapping_mul(0x96DE_1B17_3F11_9089);
    lemma_unmultiplied(a, 0xBF58_476D_1CE4_E5B9, 0x96DE_1B17_3F11_9089, 8125545580553827436);
    let z = x ^ (x >> 30) ^ (x >> 60);
    assert(z ^ (z >> 30) == x) by (bit_vector)
        requires
            z == x ^ (x >> 30) ^ (x >> 60),
    ;
    assert(mixed(z) == d);
    let state = z.wrapping_sub(0x9E37_79B9_7F4A_7C15);
    assert(advanced(state) == z);
    assert(mixed(advanced(state)) == d);
}

/// The state goes on by the same step at every draw.
pub proof fn lemma_draws_step_through_the_states(state: u64)
    ensures
        advanced(state) == (state + 0x9E37_79B9_7F4A_7C15) % two_64(),
{
}

/// At each of the first eight tries the file is the first draw modulo the number
/// of files, and the offset is the second draw modulo the file's size less one,
/// whatever that size is.
#[verifier::rlimit(40)]
pub proof fn lemma_tries_are_at_random_offsets(sizes: Seq<u64>, state: u64, tried: u32)
    requires
        0 < sizes.len() <= usize::MAX,
        sizes.len() <= u64::MAX,
        tried < 8,
    ensures
        ({
            let first = mixed(advanced(state)) as int;
            let second = mixed(advanced(advanced(state))) as int;
            let i = first % sizes.len() as int;
            let size = sizes[i] as int;
            &&& size == 0 ==> place_of(sizes, state, tried) == (None::<Place>, advanced(state))
            &&& size == 1 ==> place_of(sizes, state, tried) == (
                Some(Place { file: i as usize, offset: 0 }),
                advanced(state),
            )
            &&& size >= 2 ==> place_of(sizes, state, tried) == (
                Some(Place { file: i as usize, offset: (second % (size - 1)) as u64 }),
                advanced(advanced(state)),
            )
        }),
{
}

/// After eight tries, the place is the start of a random file.
pub proof fn lemma_last_try_is_at_the_start(sizes: Seq<u64>, state: u64, tried: u32)
    requires
        0 < sizes.len() <= usize::MAX,
        sizes.len() <= u64::MAX,
        tried >= 8,
    ensures
        ({
            let i = mixed(advanced(state)) as int % sizes.len() as int;
            &&& place_of(sizes, state, tried).1 == advanced(state)
            &&& sizes[i] > 0 ==> place_of(sizes, state, tried).0 == Some(
                Place { file: i as usize, offset: 0 },
            )
            &&& sizes[i] == 0 ==> place_of(sizes, state, tried).0 is None
        }),
{
}

/// Every offset of a file, from 0 to two below its size, is the place of a try
/// for some state of the generator, whatever the size of the file.
pub proof fn lemma_every_offset_is_reached(size: u64, tried: u32, offset: u64)
    requires
        size >= 2,
        tried < 8,
        offset <= size - 2,
    ensures
        exists|state: u64| #[trigger]
            place_of(seq![size], state, tried).0 == Some(Place { file: 0, offset }),
{
    lemma_every_value_is_drawn(offset);
    let after = choose|after: u64| #[trigger] mixed(advanced(after)) == offset;
    let state = after.wrapping_sub(0x9E37_79B9_7F4A_7C15);
    assert(advanced(state) == after);
    lemma_tries_are_at_random_offsets(seq![size], state, tried);
    assert(mixed(advanced(state)) as int % 1 == 0);
    lemma_small_mod(offset as nat, (size - 1) as nat);
    assert(place_of(seq![size], state, tried).0 == Some(Place { file: 0, offset }));
}

/// Whatever the files of a corpus, the offset in the one that was drawn is the
/// second draw modulo its size less one; a draw below that is the offset itself,
/// so that every offset from 0 to two below the size is that of some draw.
pub proof fn lemma_offset_follows_the_second_draw(
    sizes: Seq<u64>,
    state: u64,
    tried: u32,
    d: u64,
)
    requires
        0 < sizes.len() <= usize::MAX,
        sizes.len() <= u64::MAX,
        tried < 8,
        mixed(advanced(advanced(state))) == d,
        sizes[mixed(advanced(state)) as int % sizes.len() as int] >= 2,
    ensures
        ({
            let size = sizes[mixed(advanced(state)) as int % sizes.len() as int];
            &&& place_of(sizes, state, tried).0 is Some
            &&& place_of(sizes, state, tried).0->0.offset == d as int % (size - 1)
            &&& d <= size - 2 ==> place_of(sizes, state, tried).0->0.offset == d
        }),
{
    let size = sizes[mixed(advanced(state)) as int % sizes.len() as int];
    lemma_tries_are_at_random_offsets(sizes, state, tried);
    if d <= size - 2 {
        lemma_small_mod(d as nat, (size - 1) as nat);
    }
}

/// Every file that is not empty is tried for some state.
pub proof fn lemma_every_file_is_tried(sizes: Seq<u64>, tried: u32, i: int)
    requires
        0 <= i < sizes.len() <= usize::MAX,
        sizes.len() <= u64::MAX,
        sizes[i] > 0,
    ensures
        exists|state: u64| ({
            let p = (#[trigger] place_of(sizes, state, tried)).0;
            p is Some && p->0.file == i
        }),
{
    lemma_every_value_is_drawn(i as u64);
    let state = choose|state: u64| #[trigger] mixed(advanced(state)) == i;
    lemma_small_mod(i as nat, sizes.len());
    let p = place_of(sizes, state, tried).0;
    assert(p is Some && p->0.file == i);
}

/// Where no file is empty, each of the nine tries of an event is a place, and
/// there are no more of them.
pub proof fn lemma_nine_places_for_an_event(sizes: Seq<u64>, state: u64, tried: u32)
    requires
        0 < sizes.len() <= usize::MAX,
        sizes.len() <= u64::MAX,
        forall|i: int| 0 <= i < sizes.len() ==> sizes[i] > 0,
    ensures
        tried <= 8 ==> {
            &&& next_place_of(sizes, state, tried).0 is Some
            &&& next_place_of(sizes, state, tried).0 == place_of(sizes, state, tried).0
            &&& next_place_of(sizes, state, tried).1 == place_of(sizes, state, tried).1
            &&& next_place_of(sizes, state, tried).2 == tried + 1
        },
        tried > 8 ==> next_place_of(sizes, state, tried) == (None::<Place>, state, tried),
{
}

/// The next place in a corpus without empty files: at each of the first eight tries
/// the file is the first draw modulo the number of files and the offset the second
/// draw modulo its size less one; at the ninth it is the start of the file; and
/// then there is none.
#[verifier::rlimit(40)]
pub proof fn lemma_next_place_is_drawn(s: &mut SyntheticSampler, r: Option<Place>)
    requires
        old(s).wf(),
        forall|i: int| 0 <= i < old(s).files@.len() ==> (#[trigger] old(s).files@[i]).size >= 2,
        call_ensures(SyntheticSampler::next_place, (s,), r),
    ensures
        ({
            let first = mixed(advanced(old(s).rng@)) as int;
            let second = mixed(advanced(advanced(old(s).rng@))) as int;
            let i = first % old(s).files@.len() as int;
            &&& old(s).tried <= 8 ==> r is Some && r->0.file == i && final(s).tried == old(s).tried
                + 1
            &&& old(s).tried < 8 ==> r->0.offset == second % (old(s).files@[i].size - 1)
                && final(s).rng@ == advanced(advanced(old(s).rng@))
            &&& old(s).tried == 8 ==> r->0.offset == 0 && final(s).rng@ == advanced(old(s).rng@)
            &&& old(s).tried > 8 ==> r is None && final(s).rng@ == old(s).rng@
            &&& final(s).files@ == old(s).files@
        }),
{
    let sizes = sizes_of(old(s).files@);
    assert(old(s).files.len() == old(s).files@.len());
    assert forall|i: int| 0 <= i < sizes.len() implies #[trigger] sizes[i] >= 2 by {
        assert(sizes[i] == old(s).files@[i].size);
    }
    let i = mixed(advanced(old(s).rng@)) as int % old(s).files@.len() as int;
    assert(0 <= i < sizes.len());
    assert(sizes[i] == old(s).files@[i].size);
    lemma_place_of_a_try(sizes, old(s).rng@, old(s).tried);
}

#[verifier::rlimit(40)]
proof fn lemma_place_of_a_try(sizes: Seq<u64>, state: u64, tried: u32)
    requires
        0 < sizes.len() <= usize::MAX,
        sizes.len() <= u64::MAX,
        forall|i: int| 0 <= i < sizes.len() ==> #[trigger] sizes[i] >= 2,
    ensures
        ({
            let first = mixed(advanced(state)) as int;
            let second = mixed(advanced(advanced(state))) as int;
            let i = first % sizes.len() as int;
            let (r, after, n) = next_place_of(sizes, state, tried);
            &&& tried <= 8 ==> r is Some && r->0.file == i && n == tried + 1
            &&& tried < 8 ==> r->0.offset == second % (sizes[i] - 1) && after == advanced(
                advanced(state),
            )
            &&& tried == 8 ==> r->0.offset == 0 && after == advanced(state)
            &&& tried > 8 ==> r is None && after == state
        }),
{
    lemma_nine_places_for_an_event(sizes, state, tried);
    let i = mixed(advanced(state)) as int % sizes.len() as int;
    assert(0 <= i < sizes.len());
    assert(sizes[i] >= 2);
    if tried < 8 {
        lemma_tries_are_at_random_offsets(sizes, state, tried);
    } else {
        lemma_last_try_is_at_the_start(sizes, state, tried);
    }
}

/// A corpus without files cannot be sampled; with files, the sampling is of them,
/// from the state of the generator on.
pub proof fn lemma_sampling_needs_files(
    files: Vec<LogFile>,
    rng: Rng,
    dir: &str,
    r: Result<SyntheticSampler, SampleError>,
)
    requires
        call_ensures(SyntheticSampler::new, (files, rng, dir), r),
    ensures
        r is Ok <==> files@.len() > 0,
        r is Ok ==> r->Ok_0.files@ == files@ && r->Ok_0.rng@ == rng@,
        r is Err ==> r->Err_0 is NoFiles,
{
}

/// A file to replay is the draw modulo the number of files.
pub proof fn lemma_replayed_file_is_drawn(rng: &mut Rng, n: usize, r: Option<usize>)
    requires
        call_ensures(pick_file, (rng, n), r),
    ensures
        n == 0 ==> r is None && final(rng)@ == old(rng)@,
        n > 0 ==> r is Some && r->0 == mixed(advanced(old(rng)@)) as int % n as int && final(rng)@
            == advanced(old(rng)@),
{
}

/// A replay starts at a draw modulo the size less one in every file of more than
/// 4096 bytes, and at the start of every other file.
pub proof fn lemma_replay_starts_anywhere(rng: &mut Rng, random: bool, size: u64, r: Option<u64>)
    requires
        call_ensures(replay_offset, (rng, random, size), r),
    ensures
        random && size > 4096 ==> r is Some && r->0 == mixed(advanced(old(rng)@)) as int % (size
            - 1) && final(rng)@ == advanced(old(rng)@),
        !random || size <= 4096 ==> r is None && final(rng)@ == old(rng)@,
{
}

/// A generator with a seed draws from that seed on.
pub proof fn lemma_seed_is_the_first_state(seed: u64, r: Rng, s: Rng)
    requires
        call_ensures(Rng::new, (seed,), r),
        call_ensures(Rng::from_seed_opt, (Some(seed),), s),
    ensures
        r@ == seed,
        s@ == seed,
{
}

/// A seed from the clock is the low 64 bits of its nanoseconds; without a clock
/// there is one that is fixed.
pub proof fn lemma_seed_of_the_clock(nanos: Option<u128>, r: u64)
    requires
        call_ensures(seed_of_time, (nanos,), r),
    ensures
        nanos matches Some(n) ==> r as int == n as int % two_64(),
        nanos is None ==> r == 0x9E37_79B9_7F4A_7C15,
{
}

/// A draw is the value of the state that the generator goes on to.
pub proof fn lemma_draws_follow_the_state(rng: &mut Rng, r: u64)
    requires
        call_ensures(Rng::next_u64, (rng,), r),
    ensures
        final(rng)@ == (old(rng)@ + 0x9E37_79B9_7F4A_7C15) % two_64(),
        r == mixed(final(rng)@),
{
}

/// A draw below `n` is the next 64 bits modulo `n`; below nothing there is no
/// draw.
pub proof fn lemma_draws_below(rng: &mut Rng, n: u64, r: u64)
    requires
        call_ensures(Rng::below, (rng, n), r),
    ensures
        n > 0 ==> r == mixed(advanced(old(rng)@)) as int % n as int && final(rng)@ == advanced(
            old(rng)@,
        ),
        n == 0 ==> r == 0 && final(rng)@ == old(rng)@,
{
}

/// The line ends that are cut off a line are line feeds and carriage returns, and
/// nothing in front of them is.
pub proof fn lemma_line_ends_are_cut(b: Seq<u8>, c: u8)
    ensures
        line_bytes(b.push(10)) == line_bytes(b),
        line_bytes(b.push(13)) == line_bytes(b),
        c != 10 && c != 13 ==> line_bytes(b.push(c)) == b.push(c),
        line_bytes(Seq::empty()) == Seq::<u8>::empty(),
{
    assert(b.push(10).drop_last() =~= b);
    assert(b.push(13).drop_last() =~= b);
}

/// A line of UTF-8 is the text that its bytes encode, without its line end.
pub proof fn lemma_lines_are_decoded(bytes: Vec<u8>, r: String)
    requires
        call_ensures(decode_line, (bytes,), r),
        valid_utf8(line_bytes(bytes@)),
    ensures
        encode_utf8(r@) == line_bytes(bytes@),
{
    decode_utf8_encode_utf8(line_bytes(bytes@));
}

/// A replay gives the line that was read, with the next number; at the end of the
/// file it starts over with the first line as line 1 where it is to, and else it
/// ends; and once it has ended it gives nothing.
pub proof fn lemma_replay_goes_on(
    s: &mut ReplaySampler,
    here: Vec<u8>,
    first: Vec<u8>,
    r: Option<RawEvent>,
)
    requires
        old(s).line_no < u64::MAX,
        call_ensures(ReplaySampler::next, (s, here, first), r),
    ensures
        old(s).exhausted ==> r is None && final(s).exhausted,
        !old(s).exhausted && here@.len() > 0 ==> r is Some && r->0.line@ == line_text(here@)
            && r->0.line_no == old(s).line_no + 1 && final(s).line_no == old(s).line_no + 1
            && !final(s).exhausted,
        !old(s).exhausted && here@.len() == 0 && !old(s).wrap ==> r is None && final(s).exhausted,
        !old(s).exhausted && here@.len() == 0 && old(s).wrap && first@.len() > 0 ==> r is Some
            && r->0.line@ == line_text(first@) && r->0.line_no == 1 && final(s).line_no == 1
            && !final(s).exhausted,
        !old(s).exhausted && here@.len() == 0 && old(s).wrap && first@.len() == 0 ==> r is None
            && final(s).exhausted,
        r matches Some(e) ==> e.source_file@ == old(s).source_file@ && e.source_type
            == old(s).source_type,
        final(s).source_file == old(s).source_file && final(s).source_type == old(s).source_type
            && final(s).wrap == old(s).wrap,
{
}

/// A replay starts in front of the first line of its file, or behind as many lines
/// as it is told.
pub proof fn lemma_replay_starts(rel: &str, wrap: bool, s: ReplaySampler)
    requires
        call_ensures(ReplaySampler::new, (rel, wrap), s),
    ensures
        s.line_no == 0 && !s.exhausted && s.wrap == wrap,
        s.source_file@ == rel@,
        s.source_type@ == family_of(lower(rel@)),
{
}

/// An event that is sampled has the line as its text, the path of the file and its
/// dataset family, and the number of the line.
pub proof fn lemma_sampled_event(
    s: SyntheticSampler,
    place: Place,
    line_no: u64,
    bytes: Vec<u8>,
    e: RawEvent,
)
    requires
        place.file < s.files@.len(),
        call_ensures(SyntheticSampler::event, (&s, place, line_no, bytes), e),
    ensures
        e.line@ == line_text(bytes@),
        e.source_file@ == s.files@[place.file as int].rel_path@,
        e.source_type@ == family_of(lower(s.files@[place.file as int].rel_path@)),
        e.line_no == line_no,
{
}

/// What is sampled at an offset is a whole line: it starts at the start of the
/// file or behind a line feed, at the offset or behind it, no line starts in
/// between, it reaches to the next line feed or to the end, and its number is one
/// more than the line feeds in front of it.
pub proof fn lemma_sampled_line_is_the_next(file: Seq<u8>, offset: int)
    requires
        0 <= offset < file.len(),
    ensures
        match sampled_line(file, offset) {
            Some((line, n)) => exists|s: int, e: int| #[trigger]
                is_line_at(file, offset, s, e) && line == file.subrange(s, e) && n == 1
                    + feeds_up_to(file, s),
            None => forall|s: int| offset <= s < file.len() ==> !#[trigger] starts_line(file, s),
        },
{
    lemma_first_line_from(file, offset);
    let s = first_line_from(file, offset);
    if s < file.len() {
        lemma_line_end(file, s);
        let e = line_end(file, s);
        assert forall|k: int| offset <= k < s && k > 0 implies #[trigger] file[k - 1] != 10 by {
            assert(!starts_line(file, k));
        }
        assert(is_line_at(file, offset, s, e));
        lemma_feeds(file, s);
    }
}

/// From `s` to `e` stands the first line of the file that starts at the offset or
/// behind it.
pub open spec fn is_line_at(file: Seq<u8>, offset: int, s: int, e: int) -> bool {
    &&& offset <= s < e <= file.len()
    &&& s == 0 || file[s - 1] == 10
    &&& forall|k: int| offset <= k < s && k > 0 ==> #[trigger] file[k - 1] != 10
    &&& forall|k: int| s <= k < e - 1 ==> #[trigger] file[k] != 10
    &&& e == file.len() || file[e - 1] == 10
}

/// How many of the first `n` bytes are line feeds.
pub open spec fn feeds_up_to(file: Seq<u8>, n: int) -> int
    decreases n,
{
    if n <= 0 {
        0
    } else {
        feeds_up_to(file, n - 1) + (if file[n - 1] == 10 {
            1int
        } else {
            0
        })
    }
}

proof fn lemma_feeds(file: Seq<u8>, n: int)
    requires
        0 <= n <= file.len(),
    ensures
        line_feeds(file.take(n)) == feeds_up_to(file, n),
    decreases n,
{
    if n > 0 {
        lemma_feeds(file, n - 1);
        assert(file.take(n).drop_last() =~= file.take(n - 1));
    }
}

} // verus!
