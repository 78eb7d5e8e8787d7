//! The rule by which the Playfair cipher replaces pairs of letters, the
//! texts that it makes of texts, and the laws that these obey.

use vstd::prelude::*;
use super::square::{
    cell, is_key_square, is_square_letter, lemma_cell, lemma_position, position,
};
use crate::ciphers::alphabet::{all_letters, is_letter, is_upper, to_lower, to_upper};
use crate::ciphers::EncryptionDirection;

verus! {

/// +1 to encrypt, -1 to decrypt: the step taken along a row or a column.
pub open spec fn direction_step(direction: EncryptionDirection) -> int {
    match direction {
        EncryptionDirection::Encrypt => 1,
        EncryptionDirection::Decrypt => -1,
    }
}

/// An odd-length text with `x` appended; an even-length text itself.
pub open spec fn padded(text: Seq<char>) -> Seq<char> {
    if text.len() % 2 == 1 {
        text.push('x')
    } else {
        text
    }
}

/// Where the letters of two cells are taken from instead, each cell given
/// as row and column. Two cells of one row move `step` along it, two of one
/// column `step` along that, round the edge; any other two cells keep their
/// rows and take each other's columns.
pub open spec fn moved(first: (int, int), second: (int, int), step: int) -> (
    (int, int),
    (int, int),
) {
    if first.0 == second.0 {
        ((first.0, (first.1 + step) % 5), (second.0, (second.1 + step) % 5))
    } else if first.1 == second.1 {
        (((first.0 + step) % 5, first.1), ((second.0 + step) % 5, second.1))
    } else {
        ((first.0, second.1), (second.0, first.1))
    }
}

/// What a pair of upper-case letters is replaced by: the letters in the
/// cells that the cells of the two letters are moved to, one step to the
/// right or down to encrypt, to the left or up to decrypt. A repeated
/// letter counts as followed by `X`.
pub open spec fn swapped(
    square: Seq<char>,
    primary: char,
    secondary: char,
    direction: EncryptionDirection,
) -> (char, char) {
    let second = if primary == secondary {
        'X'
    } else {
        secondary
    };
    let cells = moved(
        position(square, primary),
        position(square, second),
        direction_step(direction),
    );
    (cell(square, cells.0.0, cells.0.1), cell(square, cells.1.0, cells.1.1))
}

/// The character at index `i` of the ciphertext of the padded text `text`:
/// the replacement of the letter at `i` within its pair, in the case that
/// the letter at `i` has.
pub open spec fn encrypted_at(square: Seq<char>, text: Seq<char>, i: int) -> char {
    let first = text[i - i % 2];
    let second = text[i - i % 2 + 1];
    let pair = swapped(square, to_upper(first), to_upper(second), EncryptionDirection::Encrypt);
    let letter = if i % 2 == 0 {
        pair.0
    } else {
        pair.1
    };
    if is_upper(text[i]) {
        letter
    } else {
        to_lower(letter)
    }
}

/// The character at index `i` of the plaintext of the padded text `text`:
/// the replacement of the letter at `i` within its pair, as the square
/// holds it.
pub open spec fn decrypted_at(square: Seq<char>, text: Seq<char>, i: int) -> char {
    let first = text[i - i % 2];
    let second = text[i - i % 2 + 1];
    let pair = swapped(square, to_upper(first), to_upper(second), EncryptionDirection::Decrypt);
    if i % 2 == 0 {
        pair.0
    } else {
        pair.1
    }
}

/// The ciphertext of `text` under `square`: the text is padded to even
/// length, and each pair of letters replaced.
pub open spec fn encrypted_text(square: Seq<char>, text: Seq<char>) -> Seq<char> {
    let text = padded(text);
    Seq::new(text.len(), |i: int| encrypted_at(square, text, i))
}

/// The plaintext of `text` under `square`: the text is padded to even
/// length, and each pair of letters replaced.
pub open spec fn decrypted_text(square: Seq<char>, text: Seq<char>) -> Seq<char> {
    let text = padded(text);
    Seq::new(text.len(), |i: int| decrypted_at(square, text, i))
}

/// `text` in upper case.
pub open spec fn upper_text(text: Seq<char>) -> Seq<char> {
    Seq::new(text.len(), |i: int| to_upper(text[i]))
}

/// The texts that come back from a round trip: letters only, none of them
/// `J`, and after padding no pair of two equal letters.
pub open spec fn survives_round_trip(text: Seq<char>) -> bool {
    let text = padded(text);
    &&& all_letters(text)
    &&& forall|i: int| 0 <= i < text.len() ==> to_upper(#[trigger] text[i]) != 'J'
    &&& forall|i: int|
        0 <= i < text.len() && i % 2 == 0 ==> to_upper(#[trigger] text[i]) != to_upper(text[i + 1])
}

/// Cells stay in the square when they are moved one step either way.
pub proof fn lemma_moved_in_square(first: (int, int), second: (int, int), step: int)
    requires
        0 <= first.0 < 5,
        0 <= first.1 < 5,
        0 <= second.0 < 5,
        0 <= second.1 < 5,
        step == 1 || step == -1,
    ensures
        ({
            let cells = moved(first, second, step);
            &&& 0 <= cells.0.0 < 5
            &&& 0 <= cells.0.1 < 5
            &&& 0 <= cells.1.0 < 5
            &&& 0 <= cells.1.1 < 5
        }),
{
}

/// Whatever two upper-case letters are replaced by, it is two letters of
/// the square.
pub proof fn lemma_swapped_letters(
    square: Seq<char>,
    primary: char,
    secondary: char,
    direction: EncryptionDirection,
)
    requires
        is_key_square(square),
        is_upper(primary),
        is_upper(secondary),
    ensures
        is_square_letter(swapped(square, primary, secondary, direction).0),
        is_square_letter(swapped(square, primary, secondary, direction).1),
{
    let second = if primary == secondary {
        'X'
    } else {
        secondary
    };
    lemma_position(square, primary);
    lemma_position(square, second);
    let step = direction_step(direction);
    lemma_moved_in_square(position(square, primary), position(square, second), step);
    let cells = moved(position(square, primary), position(square, second), step);
    lemma_cell(square, cells.0.0, cells.0.1);
    lemma_cell(square, cells.1.0, cells.1.1);
}

/// Encrypting a text of letters gives letters, each in the case of the
/// letter that it replaces; decrypting one gives letters of the square,
/// which are in upper case and never `J`.
pub proof fn lemma_playfair_letters(square: Seq<char>, text: Seq<char>)
    requires
        is_key_square(square),
        all_letters(text),
    ensures
        all_letters(encrypted_text(square, text)),
        forall|i: int|
            0 <= i < padded(text).len() ==> is_upper(#[trigger] encrypted_text(square, text)[i])
                == is_upper(padded(text)[i]),
        forall|i: int|
            0 <= i < padded(text).len() ==> is_square_letter(
                #[trigger] decrypted_text(square, text)[i],
            ),
{
    let plain = padded(text);
    assert forall|i: int| 0 <= i < plain.len() implies is_letter(
        #[trigger] encrypted_text(square, text)[i],
    ) && is_upper(encrypted_text(square, text)[i]) == is_upper(plain[i]) by {
        let k = i - i % 2;
        assert(is_letter(plain[k]) && is_letter(plain[k + 1]) && is_letter(plain[i]));
        lemma_swapped_letters(
            square,
            to_upper(plain[k]),
            to_upper(plain[k + 1]),
            EncryptionDirection::Encrypt,
        );
    }
    assert forall|i: int| 0 <= i < plain.len() implies is_square_letter(
        #[trigger] decrypted_text(square, text)[i],
    ) by {
        let k = i - i % 2;
        assert(is_letter(plain[k]) && is_letter(plain[k + 1]));
        lemma_swapped_letters(
            square,
            to_upper(plain[k]),
            to_upper(plain[k + 1]),
            EncryptionDirection::Decrypt,
        );
    }
}

/// A text of odd length is encrypted, and decrypted, as the text with `x`
/// appended, so the result is one longer than the text; a text of even
/// length keeps its length.
pub proof fn lemma_odd_text_is_padded(square: Seq<char>, text: Seq<char>)
    ensures
        text.len() % 2 == 1 ==> encrypted_text(square, text) == encrypted_text(
            square,
            text.push('x'),
        ) && decrypted_text(square, text) == decrypted_text(square, text.push('x')),
        text.len() % 2 == 1 ==> encrypted_text(square, text).len() == text.len() + 1,
        text.len() % 2 == 0 ==> encrypted_text(square, text).len() == text.len(),
        decrypted_text(square, text).len() == encrypted_text(square, text).len(),
{
}

/// A pair of two equal letters is replaced as the letter followed by `X`.
pub proof fn lemma_repeated_letter_uses_x(
    square: Seq<char>,
    letter: char,
    direction: EncryptionDirection,
)
    ensures
        swapped(square, letter, letter, direction) == swapped(square, letter, 'X', direction),
{
}

/// Two different cells are moved to two different cells, and moving those
/// the other way leads back.
pub proof fn lemma_moved_back(first: (int, int), second: (int, int))
    requires
        0 <= first.0 < 5,
        0 <= first.1 < 5,
        0 <= second.0 < 5,
        0 <= second.1 < 5,
        first != second,
    ensures
        ({
            let cells = moved(first, second, 1);
            &&& 0 <= cells.0.0 < 5
            &&& 0 <= cells.0.1 < 5
            &&& 0 <= cells.1.0 < 5
            &&& 0 <= cells.1.1 < 5
            &&& cells.0 != cells.1
            &&& moved(cells.0, cells.1, -1) == (first, second)
        }),
{
}

/// Replacing a pair of two different letters of the square to encrypt, and
/// the result to decrypt, gives the pair back.
pub proof fn lemma_swap_back(square: Seq<char>, a: char, b: char)
    requires
        is_key_square(square),
        is_square_letter(a),
        is_square_letter(b),
        a != b,
    ensures
        ({
            let pair = swapped(square, a, b, EncryptionDirection::Encrypt);
            &&& is_square_letter(pair.0)
            &&& is_square_letter(pair.1)
            &&& pair.0 != pair.1
            &&& swapped(square, pair.0, pair.1, EncryptionDirection::Decrypt) == (a, b)
        }),
{
    lemma_position(square, a);
    lemma_position(square, b);
    let first = position(square, a);
    let second = position(square, b);
    assert(first != second);
    lemma_moved_back(first, second);
    let cells = moved(first, second, 1);
    lemma_cell(square, cells.0.0, cells.0.1);
    lemma_cell(square, cells.1.0, cells.1.1);
    let pair = swapped(square, a, b, EncryptionDirection::Encrypt);
    assert(pair.0 == cell(square, cells.0.0, cells.0.1));
    assert(pair.1 == cell(square, cells.1.0, cells.1.1));
    assert(position(square, pair.0) == cells.0);
    assert(position(square, pair.1) == cells.1);
}

/// Decrypting what was encrypted gives the padded text back in upper case,
/// for every text without `J` and without a pair of two equal letters.
pub proof fn lemma_playfair_round_trip(square: Seq<char>, text: Seq<char>)
    requires
        is_key_square(square),
        survives_round_trip(text),
    ensures
        all_letters(encrypted_text(square, text)),
        decrypted_text(square, encrypted_text(square, text)) == upper_text(padded(text)),
{
    let plain = padded(text);
    let cipher = encrypted_text(square, text);
    assert(padded(cipher) == cipher);
    assert forall|i: int| 0 <= i < plain.len() implies is_letter(#[trigger] cipher[i])
        && decrypted_at(square, cipher, i) == to_upper(plain[i]) by {
        let k = i - i % 2;
        assert(k % 2 == 0);
        let a = to_upper(plain[k]);
        let b = to_upper(plain[k + 1]);
        assert(is_letter(plain[k]) && is_letter(plain[k + 1]));
        lemma_swap_back(square, a, b);
        let pair = swapped(square, a, b, EncryptionDirection::Encrypt);
        assert(to_upper(cipher[k]) == pair.0);
        assert(to_upper(cipher[k + 1]) == pair.1);
    }
    assert(decrypted_text(square, cipher) =~= upper_text(plain));
}

} // verus!
