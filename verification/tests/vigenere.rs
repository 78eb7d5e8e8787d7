use crypto_cli_tool::ciphers::vigenere::{shift_char, VigenereCipher};
use crypto_cli_tool::ciphers::{Cipher, EncryptionDirection};

#[test]
fn test_shift_char() {
    let b = "b".chars().next().unwrap();
    let c = "c".chars().next().unwrap();
    let d = "d".chars().next().unwrap();
    let encrypted_char = shift_char(b, c, EncryptionDirection::Encrypt);
    let decrypted_char = shift_char(d, c, EncryptionDirection::Decrypt);

    assert_eq!(encrypted_char, d);
    assert_eq!(decrypted_char, b);
}

#[test]
fn test_vigenere_cipher_encrypt() {
    let cipher = VigenereCipher::new("key".to_string());
    let ciphertext = cipher.encrypt("secret");

    assert_eq!(ciphertext, "ciabir")
}

#[test]
fn test_vigenere_cipher_decrypt() {
    let cipher = VigenereCipher::new("key".to_string());
    let plaintext = cipher.decrypt("ciabir");

    assert_eq!(plaintext, "secret")
}

#[test]
fn shift_char_wraps_and_keeps_case() {
    assert_eq!(shift_char('z', 'b', EncryptionDirection::Encrypt), 'a');
    assert_eq!(shift_char('Z', 'b', EncryptionDirection::Encrypt), 'A');
    assert_eq!(shift_char('a', 'b', EncryptionDirection::Decrypt), 'z');
    assert_eq!(shift_char('A', 'z', EncryptionDirection::Decrypt), 'B');
    assert_eq!(shift_char('M', 'a', EncryptionDirection::Encrypt), 'M');
    assert_eq!(shift_char('y', 'z', EncryptionDirection::Encrypt), 'x');
}

#[test]
fn shift_char_leaves_non_letters() {
    assert_eq!(shift_char(' ', 'k', EncryptionDirection::Encrypt), ' ');
    assert_eq!(shift_char('7', 'k', EncryptionDirection::Decrypt), '7');
    assert_eq!(shift_char('\u{e9}', 'k', EncryptionDirection::Encrypt), '\u{e9}');
}

#[test]
fn vigenere_new_lowers_the_key() {
    assert_eq!(VigenereCipher::new("KeY".to_string()).key, "key");
    assert_eq!(VigenereCipher::new("key".to_string()).key, "key");
    assert_eq!(VigenereCipher::new("A-Z 9".to_string()).key, "a-z 9");
}

#[test]
fn vigenere_key_case_does_not_matter() {
    let lower = VigenereCipher::new("lemon".to_string());
    let upper = VigenereCipher::new("LEMON".to_string());
    let mixed = VigenereCipher::new("LeMoN".to_string());
    let text = "Attack at dawn";
    assert_eq!(lower.encrypt(text), upper.encrypt(text));
    assert_eq!(lower.encrypt(text), mixed.encrypt(text));
    assert_eq!(lower.decrypt(text), upper.decrypt(text));
}

#[test]
fn vigenere_keeps_the_case_of_the_text() {
    let cipher = VigenereCipher::new("key".to_string());
    assert_eq!(cipher.encrypt("SECRET"), "CIABIR");
    assert_eq!(cipher.encrypt("SeCrEt"), "CiAbIr");
    assert_eq!(cipher.decrypt("CiAbIr"), "SeCrEt");
}

#[test]
fn vigenere_non_letters_take_up_a_key_place() {
    // The blank stands at index 1 and uses up `c`; the `b` after it is
    // shifted by the key character at index 2 % 2 = 0.
    let cipher = VigenereCipher::new("bc".to_string());
    assert_eq!(cipher.encrypt("a b"), "b c");
    assert_eq!(cipher.encrypt("ab"), "bd");
    assert_eq!(cipher.decrypt("b c"), "a b");
    let cipher = VigenereCipher::new("key".to_string());
    assert_eq!(cipher.encrypt("se cret"), "ci mvcd");
}

#[test]
fn vigenere_classic_example() {
    let cipher = VigenereCipher::new("LEMON".to_string());
    assert_eq!(cipher.encrypt("ATTACKATDAWN"), "LXFOPVEFRNHR");
    assert_eq!(cipher.decrypt("LXFOPVEFRNHR"), "ATTACKATDAWN");
}

#[test]
fn vigenere_empty_text() {
    let cipher = VigenereCipher::new("key".to_string());
    assert_eq!(cipher.encrypt(""), "");
    assert_eq!(cipher.decrypt(""), "");
}

#[test]
fn vigenere_key_of_one_letter_is_a_caesar_shift() {
    let cipher = VigenereCipher::new("d".to_string());
    assert_eq!(cipher.encrypt("abc xyz"), "def abc");
}

#[test]
fn vigenere_key_character_outside_the_alphabet() {
    // `1` stands 48 places before `a`, which is 4 places forward modulo 26.
    let cipher = VigenereCipher::new("a1".to_string());
    assert_eq!(cipher.encrypt("aaaa"), "aeae");
    assert_eq!(cipher.decrypt("aeae"), "aaaa");
}

#[test]
fn vigenere_round_trip() {
    for key in ["a", "key", "LEMON", "zzzz", "Some Longer Key, with 1 digit"] {
        let cipher = VigenereCipher::new(key.to_string());
        for text in ["", "secret", "Attack at Dawn!", "MiXeD 123 cAsE", "\u{e9}t\u{e9} fini"] {
            assert_eq!(cipher.decrypt(&cipher.encrypt(text)), text);
            assert_eq!(cipher.encrypt(&cipher.decrypt(text)), text);
        }
    }
}
