//! Classical substitution ciphers (Caesar, Vigenère, Playfair) behind one
//! encrypt/decrypt contract, and the choice among them by name and key.
//!
//! Every cipher states, over sequences of characters, exactly which text it
//! returns; the round-trip and invariance laws of each cipher are proved next to
//! its implementation.

pub mod args;
pub mod ciphers;
