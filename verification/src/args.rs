//! From what a command line gives (an algorithm, a direction, a key and a
//! text) to the text that the chosen cipher returns, or to the reason why
//! the combination is refused.

use vstd::prelude::*;
use crate::ciphers::alphabet::{all_letters, is_all_letters};
use crate::ciphers::caesar::CaesarCipher;
use crate::ciphers::playfair::pairs::{decrypted_text, encrypted_text};
use crate::ciphers::playfair::square::{clean_key, key_square};
use crate::ciphers::playfair::PlayfairCipher;
use crate::ciphers::text::chars_of;
use crate::ciphers::vigenere::{keyed_text, lower_text, VigenereCipher};
use crate::ciphers::{Cipher, EncryptionDirection};

verus! {

/// The ciphers to choose from.
#[derive(Clone, Copy, Debug, PartialEq, Eq, Structural)]
pub enum Algorithm {
    Caesar,
    Vigenere,
    Playfair,
}

/// A key as it was typed: a whole number where it reads as one, else text.
#[derive(Debug, PartialEq, Eq)]
pub enum KeyType {
    Integer(i32),
    Text(String),
}

/// Everything that one run is given.
#[derive(Debug)]
pub struct Args {
    pub algorithm: Algorithm,
    pub direction: EncryptionDirection,
    pub key: KeyType,
    pub brute_force: bool,
    pub input_text: String,
}

/// Why a run is refused.
#[derive(Clone, Copy, Debug, PartialEq, Eq, Structural)]
pub enum ArgsError {
    /// Brute force was asked for together with encryption.
    BruteForceWithEncrypt,
    /// The Caesar cipher was given a text key.
    CaesarNeedsIntegerKey,
    /// The Vigenère cipher was given an integer key.
    VigenereNeedsTextKey,
    /// The Playfair cipher was given an integer key.
    PlayfairNeedsTextKey,
    /// The Vigenère cipher was given an empty key.
    VigenereKeyEmpty,
    /// The Playfair cipher was given a text that holds more than letters.
    PlayfairTextNotLetters,
}

/// `c` is one of the digits `0` to `9`.
pub open spec fn is_digit(c: char) -> bool {
    '0' <= c <= '9'
}

/// Every character of `digits` is a digit.
pub open spec fn all_digits(digits: Seq<char>) -> bool {
    forall|i: int| 0 <= i < digits.len() ==> is_digit(#[trigger] digits[i])
}

/// The number that a sequence of digits denotes in base ten.
pub open spec fn decimal_value(digits: Seq<char>) -> int
    decreases digits.len(),
{
    if digits.len() == 0 {
        0
    } else {
        10 * decimal_value(digits.drop_last()) + (digits.last() as int - '0' as int)
    }
}

/// What follows the sign of a numeral, or all of it where it has no sign.
pub open spec fn numeral_digits(s: Seq<char>) -> Seq<char> {
    if s.len() > 0 && (s[0] == '+' || s[0] == '-') {
        s.skip(1)
    } else {
        s
    }
}

/// The number that `s` denotes, where `s` is a decimal numeral that fits an
/// `i32`: one sign `+` or `-` or none, then one digit or more and nothing
/// else, the number within the range of `i32`.
pub open spec fn parsed_integer(s: Seq<char>) -> Option<i32> {
    let digits = numeral_digits(s);
    let magnitude = decimal_value(digits);
    let value = if s.len() > 0 && s[0] == '-' {
        -magnitude
    } else {
        magnitude
    };
    if digits.len() > 0 && all_digits(digits) && i32::MIN <= value <= i32::MAX {
        Some(value as i32)
    } else {
        None
    }
}

/// The text, or the refusal, that belongs to `args`. Brute force together
/// with encryption is refused first, then a key of the wrong kind, then an
/// empty Vigenère key and a Playfair text that holds more than letters.
pub open spec fn outcome(args: &Args) -> Result<Seq<char>, ArgsError> {
    let text = args.input_text@;
    if args.brute_force && args.direction == EncryptionDirection::Encrypt {
        Err(ArgsError::BruteForceWithEncrypt)
    } else {
        match args.algorithm {
            Algorithm::Caesar => match args.key {
                KeyType::Integer(key) => Ok(
                    transformed(&CaesarCipher { key }, args.direction, text),
                ),
                KeyType::Text(_) => Err(ArgsError::CaesarNeedsIntegerKey),
            },
            Algorithm::Vigenere => match args.key {
                KeyType::Integer(_) => Err(ArgsError::VigenereNeedsTextKey),
                KeyType::Text(key) => if key@.len() == 0 {
                    Err(ArgsError::VigenereKeyEmpty)
                } else {
                    Ok(keyed_text(lower_text(key@), text, args.direction))
                },
            },
            Algorithm::Playfair => match args.key {
                KeyType::Integer(_) => Err(ArgsError::PlayfairNeedsTextKey),
                KeyType::Text(key) => if !all_letters(text) {
                    Err(ArgsError::PlayfairTextNotLetters)
                } else {
                    let square = key_square(clean_key(key@));
                    Ok(
                        match args.direction {
                            EncryptionDirection::Encrypt => encrypted_text(square, text),
                            EncryptionDirection::Decrypt => decrypted_text(square, text),
                        },
                    )
                },
            },
        }
    }
}

/// What `cipher` makes of `text` in the given direction.
pub open spec fn transformed<C: Cipher>(
    cipher: &C,
    direction: EncryptionDirection,
    text: Seq<char>,
) -> Seq<char> {
    match direction {
        EncryptionDirection::Encrypt => cipher.encrypted(text),
        EncryptionDirection::Decrypt => cipher.decrypted(text),
    }
}

/// The value of a sequence of digits is not negative.
proof fn lemma_decimal_value_not_negative(digits: Seq<char>)
    requires
        all_digits(digits),
    ensures
        decimal_value(digits) >= 0,
    decreases digits.len(),
{
    if digits.len() > 0 {
        lemma_decimal_value_not_negative(digits.drop_last());
    }
}

/// Reads `s` as a decimal numeral of an `i32`.
pub fn parse_integer(s: &str) -> (value: Option<i32>)
    ensures
        value == parsed_integer(s@),
{
    let chars = chars_of(s);
    let n = chars.len();
    if n == 0 {
        return None;
    }
    let negative = chars[0] == '-';
    let start: usize = if chars[0] == '-' || chars[0] == '+' {
        1
    } else {
        0
    };
    let ghost digits = numeral_digits(s@);
    assert(digits == s@.skip(start as int));
    if start == n {
        return None;
    }
    let mut magnitude: i64 = 0;
    let mut too_large = false;
    let mut i = start;
    while i < n
        invariant
            chars@ == s@,
            n == chars.len(),
            start <= i <= n,
            digits == numeral_digits(s@),
            digits == s@.skip(start as int),
            all_digits(digits.take(i - start)),
            0 <= magnitude <= 2147483648,
            !too_large ==> magnitude == decimal_value(digits.take(i - start)),
            too_large ==> decimal_value(digits.take(i - start)) > 2147483648,
        decreases n - i,
    {
        let c = chars[i];
        if !('0' <= c && c <= '9') {
            assert(!is_digit(digits[i - start]));
            return None;
        }
        proof {
            let before = digits.take(i - start);
            let now = digits.take(i - start + 1);
            assert(now.drop_last() =~= before);
            assert(now.last() == c);
            lemma_decimal_value_not_negative(before);
        }
        if !too_large {
            let next: i64 = magnitude * 10 + (c as u8 - 48) as i64;
            if next > 2147483648 {
                too_large = true;
            } else {
                magnitude = next;
            }
        }
        i += 1;
    }
    assert(digits.take(n - start) =~= digits);
    if too_large {
        None
    } else if negative {
        Some((-magnitude) as i32)
    } else if magnitude == 2147483648 {
        None
    } else {
        Some(magnitude as i32)
    }
}

/// Runs `cipher` on `text` in the given direction.
pub fn transform<C: Cipher>(cipher: &C, direction: EncryptionDirection, text: &str) -> (out: String)
    requires
        cipher.wf(),
        cipher.accepts(text@),
    ensures
        out@ == transformed(cipher, direction, text@),
        out@.len() >= text@.len(),
{
    match direction {
        EncryptionDirection::Encrypt => cipher.encrypt(text),
        EncryptionDirection::Decrypt => cipher.decrypt(text),
    }
}

/// Builds the cipher that `args` names and runs it on the text of `args`,
/// or says why not.
pub fn run(args: &Args) -> (result: Result<String, ArgsError>)
    ensures
        match result {
            Ok(text) => outcome(args) == Ok::<Seq<char>, ArgsError>(text@),
            Err(error) => outcome(args) == Err::<Seq<char>, ArgsError>(error),
        },
{
    let text = args.input_text.as_str();
    let direction = args.direction;
    if args.brute_force {
        if let EncryptionDirection::Encrypt = direction {
            return Err(ArgsError::BruteForceWithEncrypt);
        }
    }
    match args.algorithm {
        Algorithm::Caesar => match &args.key {
            KeyType::Integer(key) => {
                let cipher = CaesarCipher { key: *key };
                Ok(transform(&cipher, direction, text))
            },
            KeyType::Text(_) => Err(ArgsError::CaesarNeedsIntegerKey),
        },
        Algorithm::Vigenere => match &args.key {
            KeyType::Integer(_) => Err(ArgsError::VigenereNeedsTextKey),
            KeyType::Text(key) => {
                if key.as_str().is_empty() {
                    Err(ArgsError::VigenereKeyEmpty)
                } else {
                    let cipher = VigenereCipher::new(key.clone());
                    Ok(transform(&cipher, direction, text))
                }
            },
        },
        Algorithm::Playfair => match &args.key {
            KeyType::Integer(_) => Err(ArgsError::PlayfairNeedsTextKey),
            KeyType::Text(key) => {
                if !is_all_letters(text) {
                    Err(ArgsError::PlayfairTextNotLetters)
                } else {
                    let cipher = PlayfairCipher::new(key.clone());
                    Ok(transform(&cipher, direction, text))
                }
            },
        },
    }
}

impl KeyType {
    /// The key that `s` stands for: an integer where `s` is a decimal
    /// numeral of an `i32`, else the text `s`. Never an error.
    pub fn from_str(s: &str) -> (key: Result<KeyType, String>)
        ensures
            match key {
                Ok(KeyType::Integer(value)) => parsed_integer(s@) == Some(value),
                Ok(KeyType::Text(text)) => parsed_integer(s@) is None && text@ == s@,
                Err(_) => false,
            },
    {
        match parse_integer(s) {
            Some(value) => Ok(KeyType::Integer(value)),
            None => Ok(KeyType::Text(s.to_owned())),
        }
    }
}

impl ArgsError {
    /// The refusal in words.
    pub open spec fn message_text(self) -> Seq<char> {
        match self {
            ArgsError::BruteForceWithEncrypt => {
                "Brute force mode cannot be used with encryption."@
            },
            ArgsError::CaesarNeedsIntegerKey => "Caesar cipher requires an integer key."@,
            ArgsError::VigenereNeedsTextKey => "Vigenère cipher requires a text key."@,
            ArgsError::PlayfairNeedsTextKey => "Playfair cipher requires a text key."@,
            ArgsError::VigenereKeyEmpty => {
                "Vigenère cipher requires a key that is not empty."@
            },
            ArgsError::PlayfairTextNotLetters => {
                "Playfair cipher requires a text of letters only."@
            },
        }
    }

    /// The refusal in words.
    pub fn message(&self) -> (text: String)
        ensures
            text@ == self.message_text(),
    {
        let words = match self {
            ArgsError::BruteForceWithEncrypt => "Brute force mode cannot be used with encryption.",
            ArgsError::CaesarNeedsIntegerKey => "Caesar cipher requires an integer key.",
            ArgsError::VigenereNeedsTextKey => "Vigenère cipher requires a text key.",
            ArgsError::PlayfairNeedsTextKey => "Playfair cipher requires a text key.",
            ArgsError::VigenereKeyEmpty => "Vigenère cipher requires a key that is not empty.",
            ArgsError::PlayfairTextNotLetters => "Playfair cipher requires a text of letters only.",
        };
        words.to_owned()
    }
}

} // verus!
