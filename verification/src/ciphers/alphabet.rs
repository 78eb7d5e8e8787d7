//! The 26 ASCII letters in their two cases, and shifting along them.

use vstd::prelude::*;

verus! {

/// `c` is one of `A` to `Z`.
pub open spec fn is_upper(c: char) -> bool {
    'A' <= c <= 'Z'
}

/// `c` is one of `a` to `z`.
pub open spec fn is_lower(c: char) -> bool {
    'a' <= c <= 'z'
}

/// `c` is an ASCII letter of either case.
pub open spec fn is_letter(c: char) -> bool {
    is_upper(c) || is_lower(c)
}

/// The upper-case form of a lower-case letter; any other character itself.
pub open spec fn to_upper(c: char) -> char {
    if is_lower(c) {
        (c as int - 32) as char
    } else {
        c
    }
}

/// The lower-case form of an upper-case letter; any other character itself.
pub open spec fn to_lower(c: char) -> char {
    if is_upper(c) {
        (c as int + 32) as char
    } else {
        c
    }
}

/// How far a letter stands from the first letter of its own case.
pub open spec fn letter_offset(c: char) -> int {
    if is_lower(c) {
        c as int - 'a' as int
    } else {
        c as int - 'A' as int
    }
}

/// The letter that stands `shift` places after `c` in the alphabet, going
/// round from `z` to `a`, in the case of `c`. A negative `shift` goes
/// backwards. A character that is no letter stays as it is.
pub open spec fn shifted(c: char, shift: int) -> char {
    if is_lower(c) {
        ('a' as int + (letter_offset(c) + shift) % 26) as char
    } else if is_upper(c) {
        ('A' as int + (letter_offset(c) + shift) % 26) as char
    } else {
        c
    }
}

/// The letters `A` to `Z`, in order.
pub open spec fn upper_alphabet() -> Seq<char> {
    Seq::new(26, |i: int| ('A' as int + i) as char)
}

/// Every character of `text` is an ASCII letter.
pub open spec fn all_letters(text: Seq<char>) -> bool {
    forall|i: int| 0 <= i < text.len() ==> is_letter(#[trigger] text[i])
}

/// Whether `c` is one of `A` to `Z`.
pub fn is_ascii_upper(c: char) -> (b: bool)
    ensures
        b == is_upper(c),
{
    'A' <= c && c <= 'Z'
}

/// Whether `c` is one of `a` to `z`.
pub fn is_ascii_lower(c: char) -> (b: bool)
    ensures
        b == is_lower(c),
{
    'a' <= c && c <= 'z'
}

/// Whether `c` is an ASCII letter of either case.
pub fn is_ascii_letter(c: char) -> (b: bool)
    ensures
        b == is_letter(c),
{
    is_ascii_upper(c) || is_ascii_lower(c)
}

/// `c` in upper case, where it is a lower-case letter; else `c`.
pub fn ascii_upper(c: char) -> (r: char)
    ensures
        r == to_upper(c),
{
    if is_ascii_lower(c) {
        (c as u8 - 32) as char
    } else {
        c
    }
}

/// `c` in lower case, where it is an upper-case letter; else `c`.
pub fn ascii_lower(c: char) -> (r: char)
    ensures
        r == to_lower(c),
{
    if is_ascii_upper(c) {
        (c as u8 + 32) as char
    } else {
        c
    }
}

/// Shifts a letter forward by `shift` places, going round from `z` to `a`
/// and keeping its case; hands back any other character unchanged.
pub fn shift_letter(c: char, shift: u8) -> (r: char)
    requires
        shift < 26,
    ensures
        r == shifted(c, shift as int),
{
    if is_ascii_lower(c) {
        let offset: u8 = c as u8 - 97;
        ((offset + shift) % 26 + 97) as char
    } else if is_ascii_upper(c) {
        let offset: u8 = c as u8 - 65;
        ((offset + shift) % 26 + 65) as char
    } else {
        c
    }
}

/// Whether every character of `text` is an ASCII letter.
pub fn is_all_letters(text: &str) -> (b: bool)
    ensures
        b == all_letters(text@),
{
    let mut ok = true;
    for c in it: text.chars()
        invariant
            it.seq() == text@,
            ok == (forall|j: int| 0 <= j < it.index() ==> is_letter(#[trigger] text@[j])),
    {
        ok = ok && is_ascii_letter(c);
    }
    ok
}

/// Shifting by two amounts that agree modulo 26 gives the same character.
pub proof fn lemma_shift_modulo(c: char, a: int, b: int)
    requires
        a % 26 == b % 26,
    ensures
        shifted(c, a) == shifted(c, b),
{
}

/// Shifting by `a` and then by `b` is shifting by `a + b`.
pub proof fn lemma_shift_twice(c: char, a: int, b: int)
    ensures
        shifted(shifted(c, a), b) == shifted(c, a + b),
{
}

/// Shifting by some amount and then by as much the other way gives the
/// character back.
pub proof fn lemma_shift_undone(c: char, shift: int)
    ensures
        shifted(shifted(c, shift), -shift) == c,
        shifted(shifted(c, -shift), shift) == c,
{
    lemma_shift_twice(c, shift, -shift);
    lemma_shift_twice(c, -shift, shift);
    assert(shifted(c, 0) == c);
}

/// Shifting forward and then back by the same amount, each brought into
/// `0..26`, gives the character back.
pub proof fn lemma_shift_back(c: char, shift: int)
    ensures
        shifted(shifted(c, shift % 26), (-shift) % 26) == c,
        shifted(shifted(c, (-shift) % 26), shift % 26) == c,
{
    let forward = shift % 26;
    let back = (-shift) % 26;
    assert((forward + back) % 26 == 0);
    lemma_shift_twice(c, forward, back);
    lemma_shift_twice(c, back, forward);
    lemma_shift_modulo(c, forward + back, 0);
}

/// Shifting gives a lower-case letter for a lower-case letter, an upper-case
/// letter for an upper-case letter, and leaves every other character as it
/// is.
pub proof fn lemma_shift_keeps_case(c: char, shift: int)
    ensures
        is_lower(shifted(c, shift)) == is_lower(c),
        is_upper(shifted(c, shift)) == is_upper(c),
        !is_letter(c) ==> shifted(c, shift) == c,
{
}

} // verus!
