//! Strings as sequences of characters.

use vstd::prelude::*;

verus! {

/// The characters of `s`, in order.
pub fn to_chars(s: &str) -> (v: Vec<char>)
    ensures
        v@ == s@,
{
    let mut v: Vec<char> = Vec::new();
    for c in iter: s.chars()
        invariant
            iter.seq() == s@,
            v@ == iter.seq().take(iter.index() as int),
    {
        v.push(c);
        assert(iter.seq().take(iter.index() + 1) =~= iter.seq().take(iter.index() as int).push(c));
    }
    assert(v@ =~= s@);
    v
}

/// [`String::from_iter`] over the characters of `v`: the string that holds
/// exactly those characters, in order.
#[verifier::external_body]
pub(crate) fn from_chars(v: &Vec<char>) -> (s: String)
    ensures
        s@ == v@,
{
    String::from_iter(v.iter())
}

/// The character of a decimal digit.
pub open spec fn digit_char(d: int) -> char {
    if d == 0 {
        '0'
    } else if d == 1 {
        '1'
    } else if d == 2 {
        '2'
    } else if d == 3 {
        '3'
    } else if d == 4 {
        '4'
    } else if d == 5 {
        '5'
    } else if d == 6 {
        '6'
    } else if d == 7 {
        '7'
    } else if d == 8 {
        '8'
    } else {
        '9'
    }
}

/// How a natural number is written in base ten.
pub open spec fn nat_text(n: nat) -> Seq<char>
    decreases n,
{
    if n < 10 {
        seq![digit_char(n as int)]
    } else {
        nat_text(n / 10).push(digit_char((n % 10) as int))
    }
}

/// How an integer is written in base ten, with a minus sign where it is
/// negative.
pub open spec fn int_text(i: int) -> Seq<char> {
    if i < 0 {
        seq!['-'] + nat_text((-i) as nat)
    } else {
        nat_text(i as nat)
    }
}

/// The character of a decimal digit.
fn digit(d: u64) -> (c: char)
    requires
        d < 10,
    ensures
        c == digit_char(d as int),
{
    if d == 0 {
        '0'
    } else if d == 1 {
        '1'
    } else if d == 2 {
        '2'
    } else if d == 3 {
        '3'
    } else if d == 4 {
        '4'
    } else if d == 5 {
        '5'
    } else if d == 6 {
        '6'
    } else if d == 7 {
        '7'
    } else if d == 8 {
        '8'
    } else {
        '9'
    }
}

/// Appends to `out` how `n` is written in base ten.
pub fn push_nat(out: &mut Vec<char>, n: u64)
    ensures
        final(out)@ == old(out)@ + nat_text(n as nat),
    decreases n,
{
    if n < 10 {
        out.push(digit(n));
        assert(out@ =~= old(out)@ + nat_text(n as nat));
    } else {
        push_nat(out, n / 10);
        out.push(digit(n % 10));
        assert(out@ =~= old(out)@ + nat_text(n as nat));
    }
}

/// Appends to `out` how `i` is written in base ten.
pub fn push_int(out: &mut Vec<char>, i: i64)
    ensures
        final(out)@ == old(out)@ + int_text(i as int),
{
    if i < 0 {
        out.push('-');
        let size = (-(i + 1)) as u64 + 1;
        push_nat(out, size);
        assert(out@ =~= old(out)@ + int_text(i as int));
    } else {
        push_nat(out, i as u64);
    }
}

/// Appends the characters of `more` to `out`.
pub fn push_chars(out: &mut Vec<char>, more: &Vec<char>)
    ensures
        final(out)@ == old(out)@ + more@,
{
    let mut i: usize = 0;
    assert(out@ =~= old(out)@ + more@.take(0));
    while i < more.len()
        invariant
            i <= more.len(),
            out@ == old(out)@ + more@.take(i as int),
        decreases more.len() - i,
    {
        out.push(more[i]);
        assert(out@ =~= old(out)@ + more@.take(i as int + 1));
        i += 1;
    }
    assert(more@.take(more.len() as int) =~= more@);
}

/// Appends the characters of `more` to `out`.
pub fn push_str(out: &mut Vec<char>, more: &str)
    ensures
        final(out)@ == old(out)@ + more@,
{
    let chars = to_chars(more);
    push_chars(out, &chars);
}

/// Whether a code point is a scalar value, that is, the code point of a
/// character.
pub open spec fn is_scalar(code: int) -> bool {
    0 <= code <= 0xD7FF || 0xE000 <= code <= 0x10FFFF
}

/// [`char::from_u32`]: the character whose code point is `code`, where
/// `code` is a scalar value, and nothing where it is not.
#[verifier::external_body]
pub(crate) fn char_from_code(code: u32) -> (r: Option<char>)
    ensures
        is_scalar(code as int) ==> r is Some && r->Some_0 as u32 == code,
        !is_scalar(code as int) ==> r is None,
{
    char::from_u32(code)
}

/// The code point of a character.
pub fn code_point(c: char) -> (r: u32)
    ensures
        r as int == c as int,
{
    c as u32
}

/// A character is what its code point is the code point of.
pub proof fn lemma_char_of_code(c: char, code: i64)
    requires
        c as u32 == code as u32,
        0 < code <= 0x10FFFF,
    ensures
        c == code as char,
{
}

/// The integer that a text is read as by `parse_int::parse`, if it is read
/// as one.
pub uninterp spec fn parsed_int(text: Seq<char>) -> Option<i64>;

/// How many minus signs a text holds.
pub open spec fn minus_count(text: Seq<char>) -> nat {
    text.filter(|c: char| c == '-').len()
}

/// `parse_int::parse` for 64-bit integers: the integer that `text` is read
/// as, with the prefixes and separators that the function knows; nothing
/// where it reads none. A text with two minus signs is left out, on which
/// the function may overflow.
#[verifier::external_body]
pub(crate) fn parse_integer(text: &str) -> (r: Option<i64>)
    requires
        minus_count(text@) < 2,
    ensures
        r == parsed_int(text@),
{
    parse_int::parse::<i64>(text).ok()
}

/// Whether `text` holds fewer than two minus signs.
pub fn few_minus_signs(text: &str) -> (r: bool)
    ensures
        r == (minus_count(text@) < 2),
{
    let chars = to_chars(text);
    let ghost is_minus = |c: char| c == '-';
    let mut count: usize = 0;
    let mut i: usize = 0;
    proof {
        reveal(Seq::filter);
        assert(chars@.take(0).filter(is_minus) =~= Seq::<char>::empty());
    }
    while i < chars.len()
        invariant
            i <= chars.len(),
            count <= i,
            is_minus == (|c: char| c == '-'),
            count == chars@.take(i as int).filter(is_minus).len(),
        decreases chars.len() - i,
    {
        proof {
            reveal(Seq::filter);
            assert(chars@.take(i as int + 1).drop_last() =~= chars@.take(i as int));
        }
        if chars[i] == '-' {
            count += 1;
        }
        i += 1;
    }
    assert(chars@.take(chars.len() as int) =~= chars@);
    count < 2
}

} // verus!
