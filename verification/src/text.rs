//! Text primitives: character sequences, decimal numbers, and the handful of
//! string searches that the rest of the library is built from.

use vstd::prelude::*;
use vstd::utf8::{encode_scalar, encode_utf8};

verus! {

broadcast use vstd::string::group_string_axioms;

/// `String::push` appends the character to the end of the string.
pub assume_specification[ String::push ](s: &mut String, c: char)
    ensures
        final(s)@ == old(s)@.push(c),
;

// ---------------------------------------------------------------------------
// Characters
// ---------------------------------------------------------------------------

/// One of the ten characters `0` to `9`.
pub open spec fn ascii_digit(c: char) -> bool {
    '0' <= c <= '9'
}

/// An ASCII letter of either case.
pub open spec fn ascii_letter(c: char) -> bool {
    ('a' <= c <= 'z') || ('A' <= c <= 'Z')
}

/// The value of a decimal digit.
pub open spec fn digit_value(c: char) -> int {
    c as int - '0' as int
}

/// The character that stands for a value from 0 to 9.
pub open spec fn digit_char(d: int) -> char {
    ('0' as int + d) as char
}

/// The lower-case form of an ASCII letter; every other character is itself.
pub open spec fn lower_char(c: char) -> char {
    if 'A' <= c <= 'Z' {
        (c as int + 32) as char
    } else {
        c
    }
}

/// The Unicode property White_Space.
pub open spec fn white_space(c: char) -> bool {
    let u = c as int;
    ||| 0x09 <= u <= 0x0d
    ||| u == 0x20
    ||| u == 0x85
    ||| u == 0xa0
    ||| u == 0x1680
    ||| 0x2000 <= u <= 0x200a
    ||| u == 0x2028
    ||| u == 0x2029
    ||| u == 0x202f
    ||| u == 0x205f
    ||| u == 0x3000
}

pub fn is_ascii_digit(c: char) -> (r: bool)
    ensures
        r == ascii_digit(c),
{
    '0' <= c && c <= '9'
}

pub fn is_ascii_letter(c: char) -> (r: bool)
    ensures
        r == ascii_letter(c),
{
    ('a' <= c && c <= 'z') || ('A' <= c && c <= 'Z')
}

pub fn is_white_space(c: char) -> (r: bool)
    ensures
        r == white_space(c),
{
    let u: u32 = c as u32;
    (0x09 <= u && u <= 0x0d) || u == 0x20 || u == 0x85 || u == 0xa0 || u == 0x1680 || (0x2000 <= u
        && u <= 0x200a) || u == 0x2028 || u == 0x2029 || u == 0x202f || u == 0x205f || u == 0x3000
}

pub fn to_lower(c: char) -> (r: char)
    ensures
        r == lower_char(c),
{
    if 'A' <= c && c <= 'Z' {
        let b: u8 = c as u8 + 32;
        b as char
    } else {
        c
    }
}

pub fn char_of_digit(d: u8) -> (r: char)
    requires
        d < 10,
    ensures
        r == digit_char(d as int),
        ascii_digit(r),
        digit_value(r) == d,
{
    (48 + d) as char
}

// ---------------------------------------------------------------------------
// Sequences of characters
// ---------------------------------------------------------------------------

/// The text with every ASCII letter in lower case.
pub open spec fn lower(s: Seq<char>) -> Seq<char> {
    s.map_values(|c: char| lower_char(c))
}

/// `pat` stands in `s` at position `i`.
pub open spec fn occurs_at(s: Seq<char>, pat: Seq<char>, i: int) -> bool {
    0 <= i && i + pat.len() <= s.len() && s.subrange(i, i + pat.len()) == pat
}

/// `pat` stands somewhere in `s`.
pub open spec fn contains(s: Seq<char>, pat: Seq<char>) -> bool {
    exists|i: int| occurs_at(s, pat, i)
}

pub open spec fn starts_with(s: Seq<char>, pat: Seq<char>) -> bool {
    occurs_at(s, pat, 0)
}

pub open spec fn ends_with(s: Seq<char>, pat: Seq<char>) -> bool {
    occurs_at(s, pat, s.len() - pat.len())
}

/// The text without the white space in front.
pub open spec fn trim_start(s: Seq<char>) -> Seq<char>
    decreases s.len(),
{
    if s.len() > 0 && white_space(s[0]) {
        trim_start(s.subrange(1, s.len() as int))
    } else {
        s
    }
}

/// The text without the white space at the end.
pub open spec fn trim_end(s: Seq<char>) -> Seq<char>
    decreases s.len(),
{
    if s.len() > 0 && white_space(s.last()) {
        trim_end(s.drop_last())
    } else {
        s
    }
}

/// The text without white space at either end.
pub open spec fn trim(s: Seq<char>) -> Seq<char> {
    trim_end(trim_start(s))
}

/// The text with every run of `c` at its end removed.
pub open spec fn trim_end_char(s: Seq<char>, c: char) -> Seq<char>
    decreases s.len(),
{
    if s.len() > 0 && s.last() == c {
        trim_end_char(s.drop_last(), c)
    } else {
        s
    }
}

/// The characters of a string.
pub fn chars_of(s: &str) -> (r: Vec<char>)
    ensures
        r@ == s@,
{
    let mut out: Vec<char> = Vec::new();
    for c in it: s.chars()
        invariant
            it.seq() == s@,
            out@ == s@.take(it.index()),
    {
        out.push(c);
        assert(s@.take(it.index() + 1) == s@.take(it.index()).push(s@[it.index()]));
    }
    assert(s@.take(s@.len() as int) == s@);
    out
}

/// The string of the characters from `from` up to `to`.
pub fn string_of(cs: &Vec<char>, from: usize, to: usize) -> (r: String)
    requires
        from <= to <= cs@.len(),
    ensures
        r@ == cs@.subrange(from as int, to as int),
{
    let mut out = String::new();
    push_range(&mut out, cs, from, to);
    out
}

/// Appends the characters from `from` up to `to`.
pub fn push_range(out: &mut String, cs: &Vec<char>, from: usize, to: usize)
    requires
        from <= to <= cs@.len(),
    ensures
        final(out)@ == old(out)@ + cs@.subrange(from as int, to as int),
{
    let mut i: usize = from;
    while i < to
        invariant
            from <= i <= to <= cs@.len(),
            out@ == old(out)@ + cs@.subrange(from as int, i as int),
        decreases to - i,
    {
        out.push(cs[i]);
        assert(cs@.subrange(from as int, i + 1) == cs@.subrange(from as int, i as int).push(
            cs@[i as int],
        ));
        i += 1;
    }
}

/// Whether `pat` stands in `cs` at position `i`.
pub fn stands_at(cs: &Vec<char>, pat: &Vec<char>, i: usize) -> (r: bool)
    ensures
        r == occurs_at(cs@, pat@, i as int),
{
    if i > cs.len() || pat.len() > cs.len() - i {
        return false;
    }
    let mut k: usize = 0;
    while k < pat.len()
        invariant
            k <= pat@.len(),
            i + pat@.len() <= cs@.len(),
            cs@.len() == cs.len(),
            forall|j: int| 0 <= j < k ==> cs@.subrange(i as int, i + pat@.len())[j] == pat@[j],
        decreases pat@.len() - k,
    {
        assert(i + k < cs.len());
        if cs[i + k] != pat[k] {
            assert(cs@.subrange(i as int, i + pat@.len())[k as int] != pat@[k as int]);
            return false;
        }
        k += 1;
    }
    assert(cs@.subrange(i as int, i + pat@.len()) == pat@);
    true
}

/// Whether `pat` stands somewhere in `cs`.
pub fn occurs_in(cs: &Vec<char>, pat: &str) -> (r: bool)
    ensures
        r == contains(cs@, pat@),
{
    let p = chars_of(pat);
    if p.len() > cs.len() {
        assert forall|j: int| !occurs_at(cs@, pat@, j) by {}
        return false;
    }
    let last: usize = cs.len() - p.len();
    let mut i: usize = 0;
    while i <= last
        invariant
            p@ == pat@,
            last == cs@.len() - p@.len(),
            i <= last + 1,
            forall|j: int| 0 <= j < i ==> !occurs_at(cs@, pat@, j),
        decreases last + 1 - i,
    {
        if stands_at(cs, &p, i) {
            return true;
        }
        if i == last {
            assert forall|j: int| !occurs_at(cs@, pat@, j) by {}
            return false;
        }
        i += 1;
    }
    assert forall|j: int| !occurs_at(cs@, pat@, j) by {}
    false
}

/// Whether the text begins with `pat`.
pub fn begins(cs: &Vec<char>, pat: &str) -> (r: bool)
    ensures
        r == starts_with(cs@, pat@),
{
    stands_at(cs, &chars_of(pat), 0)
}

/// Whether the text ends with `pat`.
pub fn ends(cs: &Vec<char>, pat: &str) -> (r: bool)
    ensures
        r == ends_with(cs@, pat@),
{
    let p = chars_of(pat);
    if p.len() > cs.len() {
        false
    } else {
        stands_at(cs, &p, cs.len() - p.len())
    }
}

/// Whether two texts are the same.
pub fn same(cs: &Vec<char>, pat: &str) -> (r: bool)
    ensures
        r == (cs@ == pat@),
{
    let p = chars_of(pat);
    let r = p.len() == cs.len() && stands_at(cs, &p, 0);
    assert(cs@.subrange(0, cs@.len() as int) == cs@);
    r
}

/// Whether two strings hold the same text.
pub fn same_str(a: &str, b: &str) -> (r: bool)
    ensures
        r == (a@ == b@),
{
    same(&chars_of(a), b)
}

/// The text with every ASCII letter in lower case.
pub fn lower_chars(cs: &Vec<char>) -> (r: Vec<char>)
    ensures
        r@ == lower(cs@),
{
    let mut out: Vec<char> = Vec::new();
    let mut i: usize = 0;
    while i < cs.len()
        invariant
            i <= cs@.len(),
            out@ == lower(cs@).take(i as int),
        decreases cs@.len() - i,
    {
        out.push(to_lower(cs[i]));
        assert(lower(cs@).take(i + 1) == lower(cs@).take(i as int).push(lower_char(cs@[i as int])));
        i += 1;
    }
    assert(lower(cs@).take(cs@.len() as int) == lower(cs@));
    out
}

proof fn lemma_trim_start_is_suffix(s: Seq<char>, i: int)
    requires
        0 <= i <= s.len(),
        forall|j: int| 0 <= j < i ==> white_space(#[trigger] s[j]),
        i < s.len() ==> !white_space(s[i]),
    ensures
        trim_start(s) == s.subrange(i, s.len() as int),
    decreases i,
{
    if i == 0 {
        assert(s.subrange(0, s.len() as int) == s);
    } else {
        assert(white_space(s[0]));
        let t = s.subrange(1, s.len() as int);
        assert forall|j: int| 0 <= j < i - 1 implies white_space(#[trigger] t[j]) by {
            assert(t[j] == s[j + 1]);
        }
        lemma_trim_start_is_suffix(t, i - 1);
        assert(t.subrange(i - 1, t.len() as int) == s.subrange(i, s.len() as int));
    }
}

proof fn lemma_trim_end_is_prefix(s: Seq<char>, i: int)
    requires
        0 <= i <= s.len(),
        forall|j: int| i <= j < s.len() ==> white_space(#[trigger] s[j]),
        i > 0 ==> !white_space(s[i - 1]),
    ensures
        trim_end(s) == s.subrange(0, i),
    decreases s.len() - i,
{
    if i == s.len() {
        assert(s.subrange(0, i) == s);
    } else {
        assert(white_space(s[s.len() - 1]));
        lemma_trim_end_is_prefix(s.drop_last(), i);
        assert(s.drop_last().subrange(0, i) == s.subrange(0, i));
    }
}

/// The text without white space at either end.
pub fn trim_chars(cs: &Vec<char>) -> (r: Vec<char>)
    ensures
        r@ == trim(cs@),
{
    let mut a: usize = 0;
    while a < cs.len() && is_white_space(cs[a])
        invariant
            a <= cs@.len(),
            forall|j: int| 0 <= j < a ==> white_space(#[trigger] cs@[j]),
        decreases cs@.len() - a,
    {
        a += 1;
    }
    proof {
        lemma_trim_start_is_suffix(cs@, a as int);
    }
    let ghost rest = cs@.subrange(a as int, cs@.len() as int);
    let mut b: usize = cs.len();
    while b > a && is_white_space(cs[b - 1])
        invariant
            a <= b <= cs@.len(),
            forall|j: int| b <= j < cs@.len() ==> white_space(#[trigger] cs@[j]),
        decreases b - a,
    {
        b -= 1;
    }
    proof {
        assert forall|j: int| b - a <= j < rest.len() implies white_space(#[trigger] rest[j]) by {
            assert(rest[j] == cs@[j + a]);
        }
        if b > a {
            assert(rest[b - a - 1] == cs@[b - 1]);
        }
        lemma_trim_end_is_prefix(rest, b - a);
        assert(rest.subrange(0, b - a) == cs@.subrange(a as int, b as int));
    }
    copy_range(cs, a, b)
}

/// The characters from `from` up to `to`.
pub fn copy_range(cs: &Vec<char>, from: usize, to: usize) -> (r: Vec<char>)
    requires
        from <= to <= cs@.len(),
    ensures
        r@ == cs@.subrange(from as int, to as int),
{
    let mut out: Vec<char> = Vec::new();
    let mut i: usize = from;
    while i < to
        invariant
            from <= i <= to <= cs@.len(),
            out@ == cs@.subrange(from as int, i as int),
        decreases to - i,
    {
        out.push(cs[i]);
        assert(cs@.subrange(from as int, i + 1) == cs@.subrange(from as int, i as int).push(
            cs@[i as int],
        ));
        i += 1;
    }
    out
}

/// The length of the text that is left without the run of `c` at its end.
pub fn len_without_trailing(cs: &Vec<char>, c: char) -> (r: usize)
    ensures
        r <= cs@.len(),
        cs@.subrange(0, r as int) == trim_end_char(cs@, c),
{
    let mut n: usize = cs.len();
    assert(cs@.subrange(0, n as int) == cs@);
    while n > 0 && cs[n - 1] == c
        invariant
            n <= cs@.len(),
            trim_end_char(cs@.subrange(0, n as int), c) == trim_end_char(cs@, c),
        decreases n,
    {
        assert(cs@.subrange(0, n as int).drop_last() == cs@.subrange(0, n - 1));
        n -= 1;
    }
    n
}

/// `i` is the first position of `c` in `s`.
pub open spec fn first_at(s: Seq<char>, c: char, i: int) -> bool {
    &&& 0 <= i < s.len()
    &&& s[i] == c
    &&& forall|j: int| 0 <= j < i ==> s[j] != c
}

/// The first position of `c`, if it occurs.
pub fn find_char(cs: &Vec<char>, c: char) -> (r: Option<usize>)
    ensures
        match r {
            Some(i) => first_at(cs@, c, i as int),
            None => !cs@.contains(c),
        },
{
    let mut i: usize = 0;
    while i < cs.len()
        invariant
            i <= cs@.len(),
            forall|j: int| 0 <= j < i ==> cs@[j] != c,
        decreases cs@.len() - i,
    {
        if cs[i] == c {
            return Some(i);
        }
        i += 1;
    }
    None
}

// ---------------------------------------------------------------------------
// Decimal numbers
// ---------------------------------------------------------------------------

/// Every character is a decimal digit.
pub open spec fn all_digits(s: Seq<char>) -> bool {
    forall|i: int| 0 <= i < s.len() ==> ascii_digit(#[trigger] s[i])
}

/// The number that a text of decimal digits stands for.
pub open spec fn digits_value(s: Seq<char>) -> int
    decreases s.len(),
{
    if s.len() == 0 {
        0
    } else {
        digits_value(s.drop_last()) * 10 + digit_value(s.last())
    }
}

/// The decimal text of `n`, filled up with zeros in front to at least `width`
/// digits.
pub open spec fn padded(n: int, width: int) -> Seq<char>
    decreases (if n > 0 { n } else { 0 }) + (if width > 0 { width } else { 0 }),
{
    if n < 10 && width <= 1 {
        seq![digit_char(n)]
    } else {
        padded(n / 10, width - 1).push(digit_char(n % 10))
    }
}

/// The decimal text of `n`.
pub open spec fn decimal(n: int) -> Seq<char> {
    padded(n, 1)
}

/// The decimal text of an integer of either sign, zero-filled to `width`
/// characters with the sign counted in.
pub open spec fn signed_padded(n: int, width: int) -> Seq<char> {
    if n < 0 {
        seq!['-'] + padded(-n, width - 1)
    } else {
        padded(n, width)
    }
}

/// Ten to the power of `w`.
pub open spec fn pow10(w: int) -> int
    decreases w,
{
    if w <= 0 {
        1
    } else {
        10 * pow10(w - 1)
    }
}

/// What [`padded`] writes, [`digits_value`] reads back; and it fills exactly
/// the width when the number fits in it.
pub proof fn lemma_padded_reads_back(n: int, w: int)
    requires
        0 <= n,
    ensures
        all_digits(padded(n, w)),
        digits_value(padded(n, w)) == n,
        padded(n, w).len() >= 1,
        1 <= w && n < pow10(w) ==> padded(n, w).len() == w,
    decreases n + (if w > 0 { w } else { 0 }),
{
    let p = padded(n, w);
    if n < 10 && w <= 1 {
        assert(p.drop_last() =~= Seq::<char>::empty());
        assert(digits_value(p.drop_last()) == 0);
        if w == 1 {
            assert(pow10(1) == 10) by {
                reveal_with_fuel(pow10, 2);
            }
        }
    } else {
        lemma_padded_reads_back(n / 10, w - 1);
        assert(p.drop_last() =~= padded(n / 10, w - 1));
        if 1 <= w && n < pow10(w) {
            if w == 1 {
                assert(pow10(1) == 10) by {
                    reveal_with_fuel(pow10, 2);
                }
            }
            assert(pow10(w) == 10 * pow10(w - 1));
        }
    }
}

/// Appends the decimal text of `n`, zero-filled to `width` digits.
pub fn push_padded(out: &mut String, n: u64, width: usize)
    ensures
        final(out)@ == old(out)@ + padded(n as int, width as int),
    decreases n + width,
{
    if n < 10 && width <= 1 {
        out.push(char_of_digit(n as u8));
    } else {
        let rest: usize = if width > 0 {
            width - 1
        } else {
            0
        };
        proof {
            if width == 0 {
                lemma_padded_width_floor(n as int / 10, -1);
            }
        }
        push_padded(out, n / 10, rest);
        out.push(char_of_digit((n % 10) as u8));
    }
}

proof fn lemma_padded_width_floor(n: int, w: int)
    requires
        0 <= n,
        w <= 0,
    ensures
        padded(n, w) == padded(n, 0),
    decreases n,
{
    if n >= 10 {
        lemma_padded_width_floor(n / 10, w - 1);
        lemma_padded_width_floor(n / 10, -1);
    }
}

/// Appends the decimal text of `n`.
pub fn push_decimal(out: &mut String, n: u64)
    ensures
        final(out)@ == old(out)@ + decimal(n as int),
{
    push_padded(out, n, 1);
}

/// Appends a signed number, zero-filled to `width` characters.
pub fn push_signed(out: &mut String, n: i64, width: usize)
    requires
        n > i64::MIN,
        1 <= width,
    ensures
        final(out)@ == old(out)@ + signed_padded(n as int, width as int),
{
    if n < 0 {
        out.push('-');
        push_padded(out, (-n) as u64, width - 1);
        assert(out@ == old(out)@ + (seq!['-'] + padded(-n as int, width - 1)));
    } else {
        push_padded(out, n as u64, width);
    }
}

/// The number that the characters from `from` up to `to` stand for, if all of
/// them are decimal digits.
pub open spec fn number(s: Seq<char>, from: int, to: int) -> Option<int> {
    let t = s.subrange(from, to);
    if all_digits(t) {
        Some(digits_value(t))
    } else {
        None
    }
}

pub proof fn lemma_digits_value_bound(s: Seq<char>)
    requires
        all_digits(s),
    ensures
        0 <= digits_value(s) < pow10(s.len() as int),
    decreases s.len(),
{
    if s.len() > 0 {
        assert(all_digits(s.drop_last())) by {
            assert forall|i: int| 0 <= i < s.drop_last().len() implies ascii_digit(
                #[trigger] s.drop_last()[i],
            ) by {
                assert(s.drop_last()[i] == s[i]);
            }
        }
        lemma_digits_value_bound(s.drop_last());
        assert(ascii_digit(s[s.len() - 1]));
        assert(pow10(s.len() as int) == 10 * pow10(s.len() - 1));
    }
}

pub proof fn lemma_pow10_monotone(a: int, b: int)
    requires
        a <= b,
    ensures
        1 <= pow10(a) <= pow10(b),
    decreases (if a > 0 { a } else { 0 }) + (if b > 0 { b } else { 0 }),
{
    if a <= 0 {
        if b > 0 {
            lemma_pow10_monotone(a, b - 1);
        }
    } else {
        lemma_pow10_monotone(a - 1, b - 1);
    }
}

/// Reads the decimal number from `from` up to `to`.
pub fn read_number(cs: &Vec<char>, from: usize, to: usize) -> (r: Option<u64>)
    requires
        from <= to <= cs@.len(),
        to - from <= 18,
    ensures
        match r {
            Some(n) => number(cs@, from as int, to as int) == Some(n as int) && n < pow10(
                to - from,
            ),
            None => number(cs@, from as int, to as int) is None,
        },
{
    let mut n: u64 = 0;
    let mut i: usize = from;
    proof {
        assert(cs@.subrange(from as int, from as int) =~= Seq::<char>::empty());
    }
    while i < to
        invariant
            from <= i <= to <= cs@.len(),
            to - from <= 18,
            all_digits(cs@.subrange(from as int, i as int)),
            n == digits_value(cs@.subrange(from as int, i as int)),
        decreases to - i,
    {
        let ghost seen = cs@.subrange(from as int, i as int);
        let ghost next = cs@.subrange(from as int, i + 1);
        if !is_ascii_digit(cs[i]) {
            proof {
                let whole = cs@.subrange(from as int, to as int);
                assert(whole[i - from] == cs@[i as int]);
            }
            return None;
        }
        proof {
            assert(next.drop_last() =~= seen);
            lemma_digits_value_bound(seen);
            lemma_pow10_monotone(seen.len() as int, 17);
            assert(pow10(17) == 100_000_000_000_000_000) by {
                reveal_with_fuel(pow10, 18);
            }
            assert forall|j: int| 0 <= j < next.len() implies ascii_digit(#[trigger] next[j]) by {
                if j < seen.len() {
                    assert(next[j] == seen[j]);
                }
            }
        }
        n = n * 10 + (cs[i] as u32 - 48) as u64;
        i += 1;
    }
    proof {
        lemma_digits_value_bound(cs@.subrange(from as int, to as int));
    }
    Some(n)
}

// ---------------------------------------------------------------------------
// Bytes
// ---------------------------------------------------------------------------

/// Where the character at `i` begins in the UTF-8 bytes of the text.
pub open spec fn byte_offset(s: Seq<char>, i: int) -> int {
    encode_utf8(s.take(i)).len() as int
}

/// The bytes of a concatenation are the concatenation of the bytes.
pub proof fn lemma_utf8_concat(a: Seq<char>, b: Seq<char>)
    ensures
        encode_utf8(a + b) == encode_utf8(a) + encode_utf8(b),
    decreases a.len(),
{
    if a.len() == 0 {
        assert(a + b =~= b);
        assert(encode_utf8(a) + encode_utf8(b) =~= encode_utf8(b));
    } else {
        lemma_utf8_concat(a.drop_first(), b);
        assert((a + b).drop_first() =~= a.drop_first() + b);
        assert(encode_utf8(a + b) =~= encode_utf8(a) + encode_utf8(b));
    }
}

/// The bytes of a single character.
pub proof fn lemma_utf8_one(c: char)
    ensures
        encode_utf8(seq![c]) == encode_scalar(c as u32),
{
    let s = seq![c];
    assert(s.drop_first() =~= Seq::<char>::empty());
    assert(encode_utf8(s.drop_first()) =~= Seq::<u8>::empty());
    assert(encode_utf8(s) =~= encode_scalar(c as u32));
}

/// The number of bytes of a character in UTF-8.
pub fn utf8_width(c: char) -> (r: usize)
    ensures
        r == encode_utf8(seq![c]).len(),
        1 <= r <= 4,
{
    proof {
        lemma_utf8_one(c);
        vstd::utf8::char_is_scalar(c);
    }
    let u: u32 = c as u32;
    if u <= 0x7f {
        1
    } else if u <= 0x7ff {
        2
    } else if u <= 0xffff {
        3
    } else {
        4
    }
}

/// Where the character at `i` begins in the bytes of the line.
pub fn bytes_before(line: &str, cs: &Vec<char>, i: usize) -> (r: usize)
    requires
        cs@ == line@,
        i <= cs@.len(),
    ensures
        r == byte_offset(line@, i as int),
        r <= encode_utf8(line@).len(),
{
    let total: usize = line.as_bytes().len();
    assert(total == encode_utf8(line@).len());
    let mut k: usize = 0;
    let mut n: usize = 0;
    assert(cs@.take(0) =~= Seq::<char>::empty());
    while k < i
        invariant
            k <= i <= cs@.len(),
            n == byte_offset(cs@, k as int),
            total == encode_utf8(cs@).len(),
        decreases i - k,
    {
        proof {
            let c = cs@[k as int];
            lemma_utf8_concat(cs@.take(k as int), seq![c]);
            assert(cs@.take(k + 1) =~= cs@.take(k as int) + seq![c]);
            lemma_utf8_concat(cs@.take(k + 1), cs@.skip(k + 1));
            assert(cs@.take(k + 1) + cs@.skip(k + 1) =~= cs@);
        }
        n = n + utf8_width(cs[k]);
        k += 1;
    }
    proof {
        lemma_utf8_concat(cs@.take(i as int), cs@.skip(i as int));
        assert(cs@.take(i as int) + cs@.skip(i as int) =~= cs@);
    }
    n
}

// ---------------------------------------------------------------------------
// Unsigned numbers as settings give them
// ---------------------------------------------------------------------------

/// Why a text is not an unsigned number.
#[derive(Debug, Clone, Copy, PartialEq, Eq, Structural)]
pub enum IntProblem {
    Empty,
    InvalidDigit,
    TooLarge,
}

impl IntProblem {
    pub open spec fn label(self) -> Seq<char> {
        match self {
            IntProblem::Empty => "cannot parse integer from empty string"@,
            IntProblem::InvalidDigit => "invalid digit found in string"@,
            IntProblem::TooLarge => "number too large to fit in target type"@,
        }
    }

    pub fn text(&self) -> (r: &'static str)
        ensures
            r@ == self.label(),
    {
        match self {
            IntProblem::Empty => "cannot parse integer from empty string",
            IntProblem::InvalidDigit => "invalid digit found in string",
            IntProblem::TooLarge => "number too large to fit in target type",
        }
    }
}

/// The number that the digits from `i` on continue, where `acc` was read
/// before: the first character that is no digit, or the first digit that makes
/// it exceed `max`, decides the problem.
pub open spec fn unsigned_from(s: Seq<char>, i: int, acc: int, max: int) -> Result<int, IntProblem>
    decreases s.len() - i,
{
    if i < 0 || i >= s.len() {
        Ok(acc)
    } else if !ascii_digit(s[i]) {
        Err(IntProblem::InvalidDigit)
    } else if acc * 10 + digit_value(s[i]) > max {
        Err(IntProblem::TooLarge)
    } else {
        unsigned_from(s, i + 1, acc * 10 + digit_value(s[i]), max)
    }
}

/// The unsigned number that a text gives, which may have a plus sign in front.
pub open spec fn unsigned_value(s: Seq<char>, max: int) -> Result<int, IntProblem> {
    if s.len() == 0 {
        Err(IntProblem::Empty)
    } else if s[0] == '+' {
        if s.len() == 1 {
            Err(IntProblem::InvalidDigit)
        } else {
            unsigned_from(s, 1, 0, max)
        }
    } else {
        unsigned_from(s, 0, 0, max)
    }
}

/// Reads an unsigned number that is at most `max`.
pub fn parse_unsigned(s: &str, max: u64) -> (r: Result<u64, IntProblem>)
    ensures
        match r {
            Ok(n) => unsigned_value(s@, max as int) == Ok::<int, IntProblem>(n as int) && n <= max,
            Err(p) => unsigned_value(s@, max as int) == Err::<int, IntProblem>(p),
        },
{
    let cs = chars_of(s);
    if cs.len() == 0 {
        return Err(IntProblem::Empty);
    }
    let mut i: usize = 0;
    if cs[0] == '+' {
        if cs.len() == 1 {
            return Err(IntProblem::InvalidDigit);
        }
        i = 1;
    }
    let mut acc: u64 = 0;
    while i < cs.len()
        invariant
            cs@ == s@,
            i <= cs@.len(),
            acc <= max,
            unsigned_value(cs@, max as int) == unsigned_from(
                cs@,
                i as int,
                acc as int,
                max as int,
            ),
        decreases cs@.len() - i,
    {
        if !is_ascii_digit(cs[i]) {
            return Err(IntProblem::InvalidDigit);
        }
        let d: u64 = (cs[i] as u32 - 48) as u64;
        if acc > (u64::MAX - d) / 10 || acc * 10 + d > max {
            return Err(IntProblem::TooLarge);
        }
        acc = acc * 10 + d;
        i += 1;
    }
    Ok(acc)
}

// ---------------------------------------------------------------------------
// Quoted texts
// ---------------------------------------------------------------------------

/// A text in quotes, escaped as Rust's `{:?}` does.
pub uninterp spec fn debug_text(s: Seq<char>) -> Seq<char>;

/// The formatting of a string with `{:?}`: the text in quotes, with its
/// characters escaped where `Debug` of `str` escapes them. Which ones it
/// escapes beyond quotes, backslashes and control characters follows Unicode
/// tables of the standard library and is only named.
#[verifier::external_body]
pub(crate) fn quoted(s: &str) -> (r: String)
    ensures
        r@ == debug_text(s@),
{
    format!("{:?}", s)
}

} // verus!
