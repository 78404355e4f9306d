//! Texts: white space around them, letters in either case, and digits.

use vstd::prelude::*;

use crate::text::{
    contains, digit_char, digits_value, ends_with, lemma_padded_reads_back, lower, lower_char,
    occurs_at, padded, starts_with, trim, trim_end, trim_start, white_space,
};

verus! {

/// Trimming leaves nothing of a text exactly when all of it is white space.
pub proof fn lemma_trimmed_to_nothing(s: Seq<char>)
    ensures
        trim(s).len() == 0 <==> (forall|i: int|
            0 <= i < s.len() ==> white_space(#[trigger] s[i])),
{
    lemma_trim_cuts(s);
}

/// What is trimmed is a part of the text that neither begins nor ends with white
/// space, and nothing but white space stands around it.
pub proof fn lemma_trim_cuts(s: Seq<char>)
    ensures
        exists|i: int, j: int| #[trigger] is_trimmed(s, i, j) && trim(s) == s.subrange(i, j),
        trim(s).len() == 0 <==> (forall|i: int|
            0 <= i < s.len() ==> white_space(#[trigger] s[i])),
{
    lemma_trim_start(s);
    let i = choose|i: int|
        0 <= i <= s.len() && trim_start(s) == s.skip(i) && (forall|k: int|
            0 <= k < i ==> white_space(s[k])) && (i < s.len() ==> !white_space(s[i]));
    lemma_trim_end(s.skip(i));
    let t = s.skip(i);
    let n = choose|n: int|
        0 <= n <= t.len() && trim_end(t) == t.take(n) && (forall|k: int|
            n <= k < t.len() ==> white_space(t[k])) && (n > 0 ==> !white_space(t[n - 1]));
    assert(trim(s) =~= s.subrange(i, i + n));
    assert forall|k: int| i + n <= k < s.len() implies white_space(#[trigger] s[k]) by {
        assert(t[k - i] == s[k]);
    }
    if n > 0 {
        assert(t[n - 1] == s[i + n - 1]);
    }
    if n == 0 && i < s.len() {
        assert(white_space(t[0]));
    }
    assert(is_trimmed(s, i, i + n));
    if trim(s).len() > 0 {
        assert(!white_space(s[i]));
    }
}

/// From `i` to `j` stands what is left of the text without white space around it.
pub open spec fn is_trimmed(s: Seq<char>, i: int, j: int) -> bool {
    &&& 0 <= i <= j <= s.len()
    &&& forall|k: int| 0 <= k < i ==> white_space(#[trigger] s[k])
    &&& forall|k: int| j <= k < s.len() ==> white_space(#[trigger] s[k])
    &&& i < j ==> !white_space(s[i]) && !white_space(s[j - 1])
}

proof fn lemma_trim_start(s: Seq<char>)
    ensures
        exists|i: int|
            0 <= i <= s.len() && trim_start(s) == #[trigger] s.skip(i) && (forall|k: int|
                0 <= k < i ==> white_space(s[k])) && (i < s.len() ==> !white_space(s[i])),
    decreases s.len(),
{
    if s.len() > 0 && white_space(s[0]) {
        let t = s.drop_first();
        lemma_trim_start(t);
        let i = choose|i: int|
            0 <= i <= t.len() && trim_start(t) == #[trigger] t.skip(i) && (forall|k: int|
                0 <= k < i ==> white_space(t[k])) && (i < t.len() ==> !white_space(t[i]));
        assert(s.skip(i + 1) =~= t.skip(i));
        assert forall|k: int| 0 <= k < i + 1 implies white_space(s[k]) by {
            if k > 0 {
                assert(t[k - 1] == s[k]);
            }
        }
        if i < t.len() {
            assert(t[i] == s[i + 1]);
        }
    } else {
        assert(s.skip(0) =~= s);
    }
}

proof fn lemma_trim_end(s: Seq<char>)
    ensures
        exists|n: int|
            0 <= n <= s.len() && trim_end(s) == #[trigger] s.take(n) && (forall|k: int|
                n <= k < s.len() ==> white_space(s[k])) && (n > 0 ==> !white_space(s[n - 1])),
    decreases s.len(),
{
    if s.len() > 0 && white_space(s.last()) {
        let t = s.drop_last();
        lemma_trim_end(t);
        let n = choose|n: int|
            0 <= n <= t.len() && trim_end(t) == #[trigger] t.take(n) && (forall|k: int|
                n <= k < t.len() ==> white_space(t[k])) && (n > 0 ==> !white_space(t[n - 1]));
        assert(s.take(n) =~= t.take(n));
        assert forall|k: int| n <= k < s.len() implies white_space(s[k]) by {
            if k < t.len() {
                assert(t[k] == s[k]);
            }
        }
        if n > 0 {
            assert(t[n - 1] == s[n - 1]);
        }
    } else {
        assert(s.take(s.len() as int) =~= s);
    }
}

/// White space in ASCII is the space and the five characters from the tab on.
pub proof fn lemma_ascii_white_space(c: char)
    requires
        (c as int) < 128,
    ensures
        white_space(c) <==> c == ' ' || 9 <= c as int <= 13,
{
}

/// The ASCII letters in capitals have the small letters of the same places in the
/// alphabet, and every other character below 128 stays as it is.
pub proof fn lemma_lower_letters(c: char)
    ensures
        'A' <= c <= 'Z' ==> lower_char(c) as int == c as int + 32,
        (c as int) < 128 && !('A' <= c <= 'Z') ==> lower_char(c) == c,
        lower(seq![c]) == seq![lower_char(c)],
{
    assert(lower(seq![c]) =~= seq![lower_char(c)]);
}

/// A text contains whatever was put into it, begins with what was put in front, and
/// ends with what was put behind.
pub proof fn lemma_contains_is_in_the_middle(a: Seq<char>, pat: Seq<char>, b: Seq<char>)
    ensures
        contains(a + pat + b, pat),
        starts_with(pat + b, pat),
        ends_with(a + pat, pat),
{
    assert((a + pat + b).subrange(a.len() as int, (a.len() + pat.len()) as int) =~= pat);
    assert(occurs_at(a + pat + b, pat, a.len() as int));
    assert((pat + b).subrange(0, pat.len() as int) =~= pat);
    assert((a + pat).subrange(a.len() as int, (a + pat).len() as int) =~= pat);
}

/// Where a text contains another, it can be cut in three with the other in the
/// middle.
pub proof fn lemma_contained_text_can_be_cut_out(s: Seq<char>, pat: Seq<char>)
    requires
        contains(s, pat),
    ensures
        exists|i: int|
            0 <= i <= s.len() - pat.len() && s == #[trigger] s.take(i) + pat + s.skip(
                i + pat.len(),
            ),
{
    let i = choose|i: int| occurs_at(s, pat, i);
    assert(s =~= s.take(i) + pat + s.skip(i + pat.len()));
}

/// A number below a hundred is written with two digits, that of its tens and that
/// of what is left, and is read back from them.
pub proof fn lemma_digits_of_a_number(n: int)
    requires
        0 <= n <= 99,
    ensures
        padded(n, 2) == seq![(48 + n / 10) as char, (48 + n % 10) as char],
        digits_value(padded(n, 2)) == n,
{
    lemma_padded_reads_back(n, 2);
    reveal_with_fuel(padded, 3);
    assert(padded(n, 2) =~= seq![digit_char(n / 10), digit_char(n % 10)]);
}

} // verus!
