//! The shared cipher contract and the three ciphers that satisfy it.

use vstd::prelude::*;

pub mod alphabet;
pub mod caesar;
pub mod playfair;
pub mod text;
pub mod vigenere;

pub use caesar::CaesarCipher;
pub use playfair::PlayfairCipher;
pub use vigenere::VigenereCipher;

verus! {

/// Which way a transformation runs.
#[derive(Clone, Copy, Debug, PartialEq, Eq, Structural)]
pub enum EncryptionDirection {
    Encrypt,
    Decrypt,
}

/// A cipher turns text into text, and back.
///
/// `encrypted` and `decrypted` are the mathematical transformations; the two
/// executable methods compute exactly them. What a cipher returns is never
/// shorter than what it was given, and is a text that it accepts in turn.
pub trait Cipher {
    /// The key material is usable.
    spec fn wf(&self) -> bool;

    /// The texts this cipher can transform.
    spec fn accepts(&self, text: Seq<char>) -> bool;

    /// The ciphertext that belongs to `text`.
    spec fn encrypted(&self, text: Seq<char>) -> Seq<char>;

    /// The plaintext that belongs to `text`.
    spec fn decrypted(&self, text: Seq<char>) -> Seq<char>;

    /// Encrypts `plaintext`.
    fn encrypt(&self, plaintext: &str) -> (ciphertext: String)
        requires
            self.wf(),
            self.accepts(plaintext@),
        ensures
            ciphertext@ == self.encrypted(plaintext@),
            ciphertext@.len() >= plaintext@.len(),
            self.accepts(ciphertext@),
    ;

    /// Decrypts `ciphertext`.
    fn decrypt(&self, ciphertext: &str) -> (plaintext: String)
        requires
            self.wf(),
            self.accepts(ciphertext@),
        ensures
            plaintext@ == self.decrypted(ciphertext@),
            plaintext@.len() >= ciphertext@.len(),
            self.accepts(plaintext@),
    ;
}

} // verus!
