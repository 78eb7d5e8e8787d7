//! The Playfair cipher: letters are replaced two at a time, by where they
//! stand in a 5×5 square of letters that is built from the key.

use std::collections::HashSet;
use vstd::prelude::*;
use vstd::seq_lib::lemma_seq_contains_after_push;
use super::alphabet::{
    all_letters, ascii_lower, ascii_upper, is_ascii_upper, is_upper, upper_alphabet,
};
use super::text::chars_of;
use super::{Cipher, EncryptionDirection};

pub mod pairs;
pub mod square;

use pairs::{
    decrypted_at, decrypted_text, direction_step, encrypted_at, encrypted_text, padded, swapped,
};
use square::{
    cell, clean_key, is_clean_key, is_key_square, is_square_letter, key_square, lemma_cell,
    lemma_clean_key_bounded, lemma_clean_key_is_clean, lemma_key_square, lemma_partial_square,
    lemma_position, merged, partial_square, position, square_cells,
};

verus! {

broadcast use vstd::std_specs::hash::group_hash_axioms;

/// A Playfair cipher. `key` holds the cleaned key; the square is built from
/// it once and read by every call after that.
pub struct PlayfairCipher {
    pub key: String,
    pub matrix: [[char; 5]; 5],
}

/// Writes `c` into the cell with the given row-by-row index.
fn place(matrix: &mut [[char; 5]; 5], index: usize, c: char)
    requires
        index < 25,
    ensures
        square_cells(*final(matrix)) == square_cells(*old(matrix)).update(index as int, c),
{
    matrix[index / 5][index % 5] = c;
    assert(square_cells(*matrix) =~= square_cells(*old(matrix)).update(index as int, c));
}

/// The row or column one step from `i` in the given direction, going round
/// the edge of the square.
fn step_along(i: usize, direction: EncryptionDirection) -> (next: usize)
    requires
        i < 5,
    ensures
        next < 5,
        next == (i + direction_step(direction)) % 5,
{
    match direction {
        EncryptionDirection::Encrypt => (i + 1) % 5,
        EncryptionDirection::Decrypt => (i + 4) % 5,
    }
}

impl PlayfairCipher {
    /// The cells of the square, row by row.
    pub open spec fn grid(&self) -> Seq<char> {
        square_cells(self.matrix)
    }

    /// Appends the cleaned form of `key` to the cipher's key.
    pub fn clean_key_on_new(&mut self, key: &str)
        ensures
            final(self).key@ == old(self).key@ + clean_key(key@),
            final(self).matrix == old(self).matrix,
    {
        let mut seen: HashSet<u8> = HashSet::new();
        for raw in it: key.chars()
            invariant
                it.seq() == key@,
                self.key@ == old(self).key@ + clean_key(key@.take(it.index() as int)),
                self.matrix == old(self).matrix,
                forall|b: u8| #[trigger]
                    seen@.contains(b) <==> clean_key(key@.take(it.index() as int)).contains(
                        b as char,
                    ),
        {
            let ghost before = clean_key(key@.take(it.index() as int));
            proof {
                assert(key@.take(it.index() + 1).drop_last() =~= key@.take(it.index() as int));
                lemma_clean_key_is_clean(key@.take(it.index() as int));
            }
            let c = ascii_upper(raw);
            if is_ascii_upper(c) && c != 'J' {
                assert(before.contains(c) <==> seen@.contains(c as u8));
                if seen.insert(c as u8) {
                    self.key.push(c);
                    proof {
                        let after = before.push(c);
                        assert(self.key@ =~= old(self).key@ + after);
                        assert forall|b: u8| #[trigger]
                            seen@.contains(b) <==> after.contains(b as char) by {
                            lemma_seq_contains_after_push(before, c, b as char);
                        }
                    }
                }
            }
        }
        assert(key@.take(key@.len() as int) =~= key@);
    }

    /// Builds the square from the cipher's key: the key row by row, then the
    /// letters that it leaves out, in alphabetical order.
    pub fn generate_matrix(&mut self)
        requires
            is_clean_key(old(self).key@),
        ensures
            final(self).key@ == old(self).key@,
            final(self).grid() == key_square(old(self).key@),
            final(self).wf(),
    {
        let mut matrix: [[char; 5]; 5] = [[' '; 5]; 5];
        let mut seen: HashSet<u8> = HashSet::new();
        let mut index: usize = 0;
        proof {
            lemma_clean_key_bounded(self.key@);
        }
        for c in it: self.key.as_str().chars()
            invariant
                it.seq() == self.key@,
                self.key@ == old(self).key@,
                is_clean_key(self.key@),
                self.key@.len() <= 25,
                index == it.index(),
                square_cells(matrix).take(index as int) == self.key@.take(index as int),
                forall|b: u8| #[trigger]
                    seen@.contains(b) <==> self.key@.take(index as int).contains(b as char),
        {
            let ghost placed = self.key@.take(index as int);
            place(&mut matrix, index, c);
            seen.insert(c as u8);
            index += 1;
            proof {
                let now = self.key@.take(index as int);
                assert(now =~= placed.push(c));
                assert(square_cells(matrix).take(index as int) =~= now);
                assert forall|b: u8| #[trigger] seen@.contains(b) <==> now.contains(b as char) by {
                    lemma_seq_contains_after_push(placed, c, b as char);
                }
            }
        }
        proof {
            assert(self.key@.take(index as int) =~= self.key@);
            lemma_partial_square(self.key@, 0);
            assert(partial_square(self.key@, 0) =~= self.key@);
        }
        let mut n: u8 = 0;
        while n < 26
            invariant
                n <= 26,
                index <= 25,
                self.key@ == old(self).key@,
                is_clean_key(self.key@),
                square_cells(matrix).take(index as int) == partial_square(self.key@, n as int),
                forall|b: u8| #[trigger] seen@.contains(b) <==> self.key@.contains(b as char),
            decreases 26 - n,
        {
            let c = (65 + n) as char;
            proof {
                lemma_partial_square(self.key@, n as int);
                lemma_partial_square(self.key@, n + 1);
                lemma_clean_key_bounded(partial_square(self.key@, n + 1));
                assert(upper_alphabet()[n as int] == c);
                assert(self.key@.contains(c) <==> seen@.contains(c as u8));
            }
            if c != 'J' && !seen.contains(&(c as u8)) {
                assert(partial_square(self.key@, n + 1).len() == index + 1);
                place(&mut matrix, index, c);
                index += 1;
                assert(square_cells(matrix).take(index as int) =~= partial_square(
                    self.key@,
                    n + 1,
                ));
            }
            n += 1;
        }
        proof {
            lemma_key_square(self.key@);
            assert(square_cells(matrix).take(25) =~= square_cells(matrix));
        }
        self.matrix = matrix;
    }

    /// Row and column of the cell that holds `target`; `J` is looked up as `I`.
    pub fn get_char_indexes(&self, target: char) -> (found: (usize, usize))
        requires
            self.wf(),
            is_upper(target),
        ensures
            found.0 < 5,
            found.1 < 5,
            (found.0 as int, found.1 as int) == position(self.grid(), target),
            cell(self.grid(), found.0 as int, found.1 as int) == merged(target),
    {
        let letter = if target == 'J' {
            'I'
        } else {
            target
        };
        proof {
            lemma_position(self.grid(), target);
        }
        let mut i: usize = 0;
        while i < 25 && self.matrix[i / 5][i % 5] != letter
            invariant
                i <= 25,
                self.grid().contains(letter),
                forall|j: int| 0 <= j < i ==> self.grid()[j] != letter,
            decreases 25 - i,
        {
            i += 1;
        }
        assert(i < 25);
        assert(self.grid()[i as int] == letter);
        (i / 5, i % 5)
    }

    /// The letter in the given row and column of the square.
    fn letter_at(&self, row: usize, col: usize) -> (letter: char)
        requires
            self.wf(),
            row < 5,
            col < 5,
        ensures
            letter == cell(self.grid(), row as int, col as int),
            is_square_letter(letter),
    {
        proof {
            lemma_cell(self.grid(), row as int, col as int);
        }
        self.matrix[row][col]
    }

    /// The cipher for `key`: the key is cleaned, and the square built from it.
    pub fn new(key: String) -> (cipher: Self)
        ensures
            cipher.key@ == clean_key(key@),
            is_clean_key(cipher.key@),
            cipher.grid() == key_square(cipher.key@),
            cipher.wf(),
    {
        let mut cipher = PlayfairCipher { key: String::new(), matrix: [[' '; 5]; 5] };
        cipher.clean_key_on_new(key.as_str());
        proof {
            lemma_clean_key_is_clean(key@);
            assert(cipher.key@ =~= clean_key(key@));
        }
        cipher.generate_matrix();
        cipher
    }

    /// Replaces a pair of upper-case letters by way of the square.
    pub fn swap_chars(
        &self,
        primary_char: char,
        secondary_char: char,
        direction: EncryptionDirection,
    ) -> (pair: (char, char))
        requires
            self.wf(),
            is_upper(primary_char),
            is_upper(secondary_char),
        ensures
            pair == swapped(self.grid(), primary_char, secondary_char, direction),
            is_square_letter(pair.0),
            is_square_letter(pair.1),
    {
        let second = if primary_char == secondary_char {
            'X'
        } else {
            secondary_char
        };
        let (primary_row, primary_col) = self.get_char_indexes(primary_char);
        let (secondary_row, secondary_col) = self.get_char_indexes(second);
        if primary_row == secondary_row {
            (
                self.letter_at(primary_row, step_along(primary_col, direction)),
                self.letter_at(secondary_row, step_along(secondary_col, direction)),
            )
        } else if primary_col == secondary_col {
            (
                self.letter_at(step_along(primary_row, direction), primary_col),
                self.letter_at(step_along(secondary_row, direction), secondary_col),
            )
        } else {
            (
                self.letter_at(primary_row, secondary_col),
                self.letter_at(secondary_row, primary_col),
            )
        }
    }
}

impl Cipher for PlayfairCipher {
    /// The square holds each of its 25 letters once.
    open spec fn wf(&self) -> bool {
        is_key_square(self.grid())
    }

    /// Texts of ASCII letters, of any length and in either case.
    open spec fn accepts(&self, text: Seq<char>) -> bool {
        all_letters(text)
    }

    open spec fn encrypted(&self, text: Seq<char>) -> Seq<char> {
        encrypted_text(self.grid(), text)
    }

    open spec fn decrypted(&self, text: Seq<char>) -> Seq<char> {
        decrypted_text(self.grid(), text)
    }

    /// Encrypts `plaintext` pair by pair. A text of odd length is first
    /// padded with `x`, and the ciphertext has the padded length. Every
    /// letter of the ciphertext has the case of the letter it replaces.
    fn encrypt(&self, plaintext: &str) -> (ciphertext: String) {
        let mut text = chars_of(plaintext);
        if text.len() % 2 != 0 {
            text.push('x');
        }
        assert(text@ =~= padded(plaintext@));
        let mut ciphertext = String::new();
        let mut i: usize = 0;
        while i < text.len()
            invariant
                self.wf(),
                all_letters(text@),
                text@.len() % 2 == 0,
                i % 2 == 0,
                i <= text.len(),
                ciphertext@.len() == i,
                all_letters(ciphertext@),
                forall|j: int| 0 <= j < i ==> ciphertext@[j] == encrypted_at(self.grid(), text@, j),
            decreases text.len() - i,
        {
            let first = text[i];
            let second = text[i + 1];
            let (mut primary, mut secondary) = self.swap_chars(
                ascii_upper(first),
                ascii_upper(second),
                EncryptionDirection::Encrypt,
            );
            if !is_ascii_upper(first) {
                primary = ascii_lower(primary);
            }
            if !is_ascii_upper(second) {
                secondary = ascii_lower(secondary);
            }
            ciphertext.push(primary);
            ciphertext.push(secondary);
            i += 2;
        }
        assert(ciphertext@ =~= self.encrypted(plaintext@));
        ciphertext
    }

    /// Decrypts `ciphertext` pair by pair. A text of odd length is first
    /// padded with `x`. The plaintext is in upper case, as the square holds
    /// its letters, whatever the case of the ciphertext.
    fn decrypt(&self, ciphertext: &str) -> (plaintext: String) {
        let mut text = chars_of(ciphertext);
        if text.len() % 2 != 0 {
            text.push('x');
        }
        assert(text@ =~= padded(ciphertext@));
        let mut plaintext = String::new();
        let mut i: usize = 0;
        while i < text.len()
            invariant
                self.wf(),
                all_letters(text@),
                text@.len() % 2 == 0,
                i % 2 == 0,
                i <= text.len(),
                plaintext@.len() == i,
                all_letters(plaintext@),
                forall|j: int| 0 <= j < i ==> plaintext@[j] == decrypted_at(self.grid(), text@, j),
            decreases text.len() - i,
        {
            let (primary, secondary) = self.swap_chars(
                ascii_upper(text[i]),
                ascii_upper(text[i + 1]),
                EncryptionDirection::Decrypt,
            );
            plaintext.push(primary);
            plaintext.push(secondary);
            i += 2;
        }
        assert(plaintext@ =~= self.decrypted(ciphertext@));
        plaintext
    }
}

} // verus!
