//! The Caesar cipher: every letter moves the same number of places.

use vstd::prelude::*;
use super::alphabet::{
    is_letter, is_lower, is_upper, lemma_shift_back, lemma_shift_keeps_case, shift_letter, shifted,
};
use super::Cipher;

verus! {

/// A Caesar cipher shifts every letter by `key` places to encrypt, and by the
/// same number of places the other way to decrypt. Any integer is a key.
pub struct CaesarCipher {
    pub key: i32,
}

/// `text` with every letter shifted by `shift` places; other characters stay.
pub open spec fn shifted_text(text: Seq<char>, shift: int) -> Seq<char> {
    Seq::new(text.len(), |i: int| shifted(text[i], shift))
}

/// Shifts every letter of `text` forward by `shift` places.
fn shift_text(text: &str, shift: u8) -> (out: String)
    requires
        shift < 26,
    ensures
        out@ == shifted_text(text@, shift as int),
{
    let mut out = String::new();
    for c in it: text.chars()
        invariant
            shift < 26,
            it.seq() == text@,
            out@ == shifted_text(text@.take(it.index() as int), shift as int),
    {
        out.push(shift_letter(c, shift));
        assert(text@.take(it.index() + 1) == text@.take(it.index() as int).push(c));
    }
    out
}

impl CaesarCipher {
    /// The key brought into `0..26`.
    pub open spec fn shift(&self) -> int {
        self.key as int % 26
    }

    /// The key brought into `0..26`.
    fn normalized_shift(&self) -> (s: u8)
        ensures
            s == self.shift(),
            s < 26,
    {
        match self.key.checked_rem_euclid(26) {
            Some(r) => r as u8,
            None => 0,
        }
    }
}

impl Cipher for CaesarCipher {
    open spec fn wf(&self) -> bool {
        true
    }

    open spec fn accepts(&self, text: Seq<char>) -> bool {
        true
    }

    open spec fn encrypted(&self, text: Seq<char>) -> Seq<char> {
        shifted_text(text, self.shift())
    }

    open spec fn decrypted(&self, text: Seq<char>) -> Seq<char> {
        shifted_text(text, (-self.key) % 26)
    }

    /// Shifts every ASCII letter of `plaintext` forward by the key, keeping
    /// its case; every other character is handed on unchanged.
    fn encrypt(&self, plaintext: &str) -> (ciphertext: String) {
        shift_text(plaintext, self.normalized_shift())
    }

    /// Shifts every ASCII letter of `ciphertext` back by the key: the same as
    /// encrypting with the negated key.
    fn decrypt(&self, ciphertext: &str) -> (plaintext: String) {
        let forward = self.normalized_shift();
        let back: u8 = (26 - forward) % 26;
        shift_text(ciphertext, back)
    }
}

/// Decrypting what was encrypted gives the text back, whatever the key:
/// negative, zero, or beyond the alphabet's length.
pub proof fn lemma_caesar_round_trip(cipher: CaesarCipher, text: Seq<char>)
    ensures
        cipher.decrypted(cipher.encrypted(text)) == text,
        cipher.encrypted(cipher.decrypted(text)) == text,
{
    assert forall|i: int| 0 <= i < text.len() implies shifted(
        shifted(text[i], cipher.shift()),
        (-cipher.key) % 26,
    ) == text[i] && shifted(shifted(text[i], (-cipher.key) % 26), cipher.shift()) == text[i] by {
        lemma_shift_back(text[i], cipher.key as int);
    }
    assert(cipher.decrypted(cipher.encrypted(text)) =~= text);
    assert(cipher.encrypted(cipher.decrypted(text)) =~= text);
}

/// Under key zero, and under every other multiple of 26, the ciphertext
/// is the plaintext.
pub proof fn lemma_caesar_zero_key(cipher: CaesarCipher, text: Seq<char>)
    ensures
        cipher.key as int % 26 == 0 ==> cipher.encrypted(text) == text && cipher.decrypted(text)
            == text,
{
    if cipher.key as int % 26 == 0 {
        assert(cipher.encrypted(text) =~= text);
        assert(cipher.decrypted(text) =~= text);
    }
}

/// Both directions keep the length of the text, keep every character that
/// is no letter where and as it is, and put a letter of the same case where
/// a letter was.
pub proof fn lemma_caesar_keeps_non_letters(cipher: CaesarCipher, text: Seq<char>, i: int)
    requires
        0 <= i < text.len(),
    ensures
        cipher.encrypted(text).len() == text.len(),
        cipher.decrypted(text).len() == text.len(),
        !is_letter(text[i]) ==> cipher.encrypted(text)[i] == text[i] && cipher.decrypted(text)[i]
            == text[i],
        is_lower(cipher.encrypted(text)[i]) == is_lower(text[i]),
        is_upper(cipher.encrypted(text)[i]) == is_upper(text[i]),
        is_lower(cipher.decrypted(text)[i]) == is_lower(text[i]),
        is_upper(cipher.decrypted(text)[i]) == is_upper(text[i]),
{
    lemma_shift_keeps_case(text[i], cipher.shift());
    lemma_shift_keeps_case(text[i], (-cipher.key) % 26);
}

} // verus!
