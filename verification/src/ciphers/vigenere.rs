//! The Vigenère cipher: each letter is shifted by the key character that
//! stands over it when the key is written again and again along the text.

use vstd::prelude::*;
use super::alphabet::{
    ascii_lower, is_ascii_letter, is_letter, is_lower, is_upper, lemma_shift_keeps_case,
    lemma_shift_modulo, lemma_shift_undone, shift_letter, shifted, to_lower, to_upper,
};
use super::text::chars_of;
use super::{Cipher, EncryptionDirection};

verus! {

/// A Vigenère cipher. `new` stores the key in lower case.
pub struct VigenereCipher {
    pub key: String,
}

/// By how many places a key character shifts: its distance from `a`.
pub open spec fn key_shift(key_char: char) -> int {
    key_char as int - 'a' as int
}

/// What `base_char` becomes under `key_char`: shifted by the key character's
/// distance from `a`, forward to encrypt and backward to decrypt.
pub open spec fn shifted_by_key(
    base_char: char,
    key_char: char,
    direction: EncryptionDirection,
) -> char {
    match direction {
        EncryptionDirection::Encrypt => shifted(base_char, key_shift(key_char)),
        EncryptionDirection::Decrypt => shifted(base_char, -key_shift(key_char)),
    }
}

/// `text` with each upper-case letter replaced by its lower-case form.
pub open spec fn lower_text(text: Seq<char>) -> Seq<char> {
    Seq::new(text.len(), |i: int| to_lower(text[i]))
}

/// `text` under the key `key`: the character at index `i` is shifted by the
/// key character at index `i` modulo the key's length. Every character of
/// the text takes up a place of the key, those that are no letters too.
pub open spec fn keyed_text(
    key: Seq<char>,
    text: Seq<char>,
    direction: EncryptionDirection,
) -> Seq<char> {
    Seq::new(text.len(), |i: int| shifted_by_key(text[i], key[i % key.len() as int], direction))
}

/// Shifts `base_char` by the distance of `key_char` from `a`, in the given
/// direction. A letter keeps its case; a character that is no letter is
/// handed back unchanged.
pub fn shift_char(base_char: char, key_char: char, direction: EncryptionDirection) -> (result: char)
    ensures
        result == shifted_by_key(base_char, key_char, direction),
{
    let places: u8 = ((key_char as u32 + 7) % 26) as u8;
    match direction {
        EncryptionDirection::Encrypt => {
            proof {
                lemma_shift_modulo(base_char, key_shift(key_char), places as int);
            }
            shift_letter(base_char, places)
        },
        EncryptionDirection::Decrypt => {
            let back: u8 = (26 - places) % 26;
            proof {
                lemma_shift_modulo(base_char, -key_shift(key_char), back as int);
            }
            shift_letter(base_char, back)
        },
    }
}

impl VigenereCipher {
    /// The cipher for `key`, with the key's letters in lower case.
    pub fn new(key: String) -> (cipher: VigenereCipher)
        ensures
            cipher.key@ == lower_text(key@),
    {
        let mut lowered = String::new();
        for c in it: key.as_str().chars()
            invariant
                it.seq() == key@,
                lowered@ == lower_text(key@.take(it.index() as int)),
        {
            lowered.push(ascii_lower(c));
            assert(key@.take(it.index() + 1) == key@.take(it.index() as int).push(c));
        }
        VigenereCipher { key: lowered }
    }

    /// Runs the key along `text` in the given direction.
    fn apply(&self, text: &str, direction: EncryptionDirection) -> (out: String)
        requires
            self.wf(),
        ensures
            out@ == keyed_text(self.key@, text@, direction),
    {
        let key = chars_of(self.key.as_str());
        let chars = chars_of(text);
        let mut out = String::new();
        let mut i: usize = 0;
        while i < chars.len()
            invariant
                key@ == self.key@,
                key@.len() > 0,
                chars@ == text@,
                i <= chars.len(),
                out@ == keyed_text(key@, text@.take(i as int), direction),
            decreases chars.len() - i,
        {
            let c = chars[i];
            let shifted_char = if is_ascii_letter(c) {
                shift_char(c, key[i % key.len()], direction)
            } else {
                c
            };
            out.push(shifted_char);
            assert(keyed_text(key@, text@.take(i + 1), direction) == keyed_text(
                key@,
                text@.take(i as int),
                direction,
            ).push(shifted_char));
            i += 1;
        }
        assert(text@.take(chars.len() as int) == text@);
        out
    }
}

impl Cipher for VigenereCipher {
    /// The key is not empty.
    open spec fn wf(&self) -> bool {
        self.key@.len() > 0
    }

    open spec fn accepts(&self, text: Seq<char>) -> bool {
        true
    }

    open spec fn encrypted(&self, text: Seq<char>) -> Seq<char> {
        keyed_text(self.key@, text, EncryptionDirection::Encrypt)
    }

    open spec fn decrypted(&self, text: Seq<char>) -> Seq<char> {
        keyed_text(self.key@, text, EncryptionDirection::Decrypt)
    }

    /// Shifts each ASCII letter of `plaintext` forward by the key character
    /// that falls on it; every other character is handed on unchanged, and
    /// still takes up its place of the key.
    fn encrypt(&self, plaintext: &str) -> (ciphertext: String) {
        self.apply(plaintext, EncryptionDirection::Encrypt)
    }

    /// Shifts each ASCII letter of `ciphertext` back by the key character
    /// that falls on it; every other character is handed on unchanged, and
    /// still takes up its place of the key.
    fn decrypt(&self, ciphertext: &str) -> (plaintext: String) {
        self.apply(ciphertext, EncryptionDirection::Decrypt)
    }
}

/// Two keys are the same but for the case of their letters.
pub open spec fn same_ignoring_case(a: Seq<char>, b: Seq<char>) -> bool {
    &&& a.len() == b.len()
    &&& forall|i: int| 0 <= i < a.len() ==> to_upper(#[trigger] a[i]) == to_upper(b[i])
}

/// Decrypting what was encrypted gives the text back, for every text and
/// every key that is not empty.
pub proof fn lemma_vigenere_round_trip(cipher: VigenereCipher, text: Seq<char>)
    requires
        cipher.wf(),
    ensures
        cipher.decrypted(cipher.encrypted(text)) == text,
        cipher.encrypted(cipher.decrypted(text)) == text,
{
    let key = cipher.key@;
    assert forall|i: int| 0 <= i < text.len() implies #[trigger] cipher.decrypted(
        cipher.encrypted(text),
    )[i] == text[i] && cipher.encrypted(cipher.decrypted(text))[i] == text[i] by {
        lemma_shift_undone(text[i], key_shift(key[i % key.len() as int]));
    }
    assert(cipher.decrypted(cipher.encrypted(text)) =~= text);
    assert(cipher.encrypted(cipher.decrypted(text)) =~= text);
}

/// The case of a key's letters does not matter: keys that are the same but
/// for case are stored as the same key, and so give the same text.
pub proof fn lemma_key_case_is_irrelevant(
    a: Seq<char>,
    b: Seq<char>,
    text: Seq<char>,
    direction: EncryptionDirection,
)
    requires
        same_ignoring_case(a, b),
    ensures
        lower_text(a) == lower_text(b),
        keyed_text(lower_text(a), text, direction) == keyed_text(lower_text(b), text, direction),
{
    assert(lower_text(a) =~= lower_text(b)) by {
        assert forall|i: int| 0 <= i < a.len() implies to_lower(a[i]) == to_lower(b[i]) by {
            assert(to_upper(a[i]) == to_upper(b[i]));
        }
    }
}

/// Both directions keep the length of the text, keep every character that
/// is no letter where and as it is, and put a letter of the same case where
/// a letter was, whatever the case of the key.
pub proof fn lemma_vigenere_keeps_non_letters(
    key: Seq<char>,
    text: Seq<char>,
    direction: EncryptionDirection,
    i: int,
)
    requires
        0 <= i < text.len(),
    ensures
        keyed_text(key, text, direction).len() == text.len(),
        !is_letter(text[i]) ==> keyed_text(key, text, direction)[i] == text[i],
        is_lower(keyed_text(key, text, direction)[i]) == is_lower(text[i]),
        is_upper(keyed_text(key, text, direction)[i]) == is_upper(text[i]),
{
    let key_char = key[i % key.len() as int];
    lemma_shift_keeps_case(text[i], key_shift(key_char));
    lemma_shift_keeps_case(text[i], -key_shift(key_char));
}

} // verus!
