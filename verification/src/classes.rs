//! The character classes and the fixed shapes that timestamp patterns are made
//! of.

use vstd::prelude::*;

use crate::text::{
    ascii_digit, ascii_letter, is_ascii_digit, is_ascii_letter, is_white_space, white_space,
};

verus! {

/// Whether the `regex` crate's class `pattern` holds the character. The classes
/// `\w` and `\d` follow Unicode.
pub uninterp spec fn regex_class(pattern: Seq<char>, c: char) -> bool;

/// `Regex::is_match` of a one-class pattern on a one-character text. What the
/// classes hold beyond ASCII is the crate's Unicode tables and is only named;
/// within ASCII, `\d` holds the ten digits, and `\w` the letters, the digits
/// and the underscore.
#[verifier::external_body]
fn class_holds(pattern: &str, c: char) -> (r: bool)
    requires
        pattern@ == "\\w"@ || pattern@ == "\\d"@,
    ensures
        r == regex_class(pattern@, c),
        pattern@ == "\\d"@ && (c as int) < 128 ==> r == ascii_digit(c),
        pattern@ == "\\w"@ && (c as int) < 128 ==> r == ascii_word(c),
{
    regex::Regex::new(pattern).unwrap().is_match(&String::from(c))
}

/// An ASCII letter, a digit or the underscore.
pub open spec fn ascii_word(c: char) -> bool {
    ascii_letter(c) || ascii_digit(c) || c == '_'
}

/// A character of the class `\d`, which holds no white space.
pub open spec fn digit(c: char) -> bool {
    if (c as int) < 128 {
        ascii_digit(c)
    } else if white_space(c) {
        false
    } else {
        regex_class("\\d"@, c)
    }
}

/// A character of the class `\w`, which holds what `\d` holds.
pub open spec fn word(c: char) -> bool {
    if (c as int) < 128 {
        ascii_word(c)
    } else {
        digit(c) || regex_class("\\w"@, c)
    }
}

pub fn is_digit(c: char) -> (r: bool)
    ensures
        r == digit(c),
{
    if (c as u32) < 128 {
        is_ascii_digit(c)
    } else if is_white_space(c) {
        false
    } else {
        class_holds("\\d", c)
    }
}

pub fn is_word(c: char) -> (r: bool)
    ensures
        r == word(c),
{
    if (c as u32) < 128 {
        is_ascii_letter(c) || is_ascii_digit(c) || c == '_'
    } else {
        is_digit(c) || class_holds("\\w", c)
    }
}

/// There is a word character at position `i`.
pub open spec fn word_at(s: Seq<char>, i: int) -> bool {
    0 <= i < s.len() && word(s[i])
}

/// Position `i` is a word boundary: exactly one of its two neighbours is a word
/// character.
pub open spec fn boundary(s: Seq<char>, i: int) -> bool {
    word_at(s, i - 1) != word_at(s, i)
}

pub fn is_boundary(cs: &Vec<char>, i: usize) -> (r: bool)
    requires
        i <= cs@.len(),
    ensures
        r == boundary(cs@, i as int),
{
    let before = i > 0 && is_word(cs[i - 1]);
    let after = i < cs.len() && is_word(cs[i]);
    before != after
}

// ---------------------------------------------------------------------------
// Shapes
// ---------------------------------------------------------------------------

/// Whether `c` may stand where a shape has the mark `m`. The marks `d`, `w` and
/// `a` stand for a digit, a word character and an ASCII letter, `t` for the
/// separator `T` or a space, and `s` for a sign; every other mark stands for
/// itself.
pub open spec fn fits_mark(m: char, c: char) -> bool {
    if m == 'd' {
        digit(c)
    } else if m == 'w' {
        word(c)
    } else if m == 'a' {
        ascii_letter(c)
    } else if m == 't' {
        c == 'T' || c == ' '
    } else if m == 's' {
        c == '+' || c == '-'
    } else {
        c == m
    }
}

/// The text has the shape at position `i`.
pub open spec fn fits(s: Seq<char>, i: int, shape: Seq<char>) -> bool {
    &&& 0 <= i
    &&& i + shape.len() <= s.len()
    &&& forall|k: int| 0 <= k < shape.len() ==> fits_mark(#[trigger] shape[k], s[i + k])
}

fn mark_fits(m: char, c: char) -> (r: bool)
    ensures
        r == fits_mark(m, c),
{
    if m == 'd' {
        is_digit(c)
    } else if m == 'w' {
        is_word(c)
    } else if m == 'a' {
        is_ascii_letter(c)
    } else if m == 't' {
        c == 'T' || c == ' '
    } else if m == 's' {
        c == '+' || c == '-'
    } else {
        c == m
    }
}

fn is_class_mark(m: char) -> (r: bool)
    ensures
        r == (m == 'd' || m == 'w'),
{
    m == 'd' || m == 'w'
}

/// Whether the text has the shape at position `i`. The marks that need no
/// Unicode table are looked at first.
pub fn has_shape(cs: &Vec<char>, i: usize, shape: &Vec<char>) -> (r: bool)
    ensures
        r == fits(cs@, i as int, shape@),
{
    if i > cs.len() || shape.len() > cs.len() - i {
        return false;
    }
    let n: usize = shape.len();
    let mut k: usize = 0;
    while k < n
        invariant
            k <= n == shape@.len(),
            i + n <= cs@.len() == cs.len(),
            forall|j: int|
                0 <= j < k ==> shape@[j] == 'd' || shape@[j] == 'w' || fits_mark(
                    #[trigger] shape@[j],
                    cs@[i + j],
                ),
        decreases n - k,
    {
        assert(i + k < cs.len());
        if !is_class_mark(shape[k]) && !mark_fits(shape[k], cs[i + k]) {
            return false;
        }
        k += 1;
    }
    k = 0;
    while k < n
        invariant
            k <= n == shape@.len(),
            i + n <= cs@.len() == cs.len(),
            forall|j: int|
                0 <= j < n ==> shape@[j] == 'd' || shape@[j] == 'w' || fits_mark(
                    #[trigger] shape@[j],
                    cs@[i + j],
                ),
            forall|j: int| 0 <= j < k ==> fits_mark(#[trigger] shape@[j], cs@[i + j]),
        decreases n - k,
    {
        assert(i + k < cs.len());
        if is_class_mark(shape[k]) && !mark_fits(shape[k], cs[i + k]) {
            return false;
        }
        k += 1;
    }
    true
}

} // verus!
