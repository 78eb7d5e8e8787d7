use crypto_cli_tool::ciphers::caesar::CaesarCipher;
use crypto_cli_tool::ciphers::Cipher;

#[test]
fn test_caesar_cipher_encrypt() {
    let cipher = CaesarCipher { key: 13 };
    let ciphertext = cipher.encrypt("test");

    assert_eq!(ciphertext, "grfg");
}

#[test]
fn test_caesar_cipher_decrypt() {
    let cipher = CaesarCipher { key: 13 };
    let plaintext = cipher.decrypt("grfg");

    assert_eq!(plaintext, "test");
}

#[test]
fn caesar_shifts_by_three() {
    let cipher = CaesarCipher { key: 3 };
    assert_eq!(cipher.encrypt("abc"), "def");
    assert_eq!(cipher.decrypt("def"), "abc");
    assert_eq!(cipher.encrypt("xyz"), "abc");
    assert_eq!(cipher.encrypt("XYZ"), "ABC");
}

#[test]
fn caesar_keeps_case_and_non_letters() {
    let cipher = CaesarCipher { key: 1 };
    assert_eq!(cipher.encrypt("Hello, World! 123"), "Ifmmp, Xpsme! 123");
    assert_eq!(cipher.encrypt("zZ"), "aA");
    assert_eq!(cipher.encrypt(" \t\n.,;-_@[`{~"), " \t\n.,;-_@[`{~");
    assert_eq!(cipher.encrypt("h\u{e9}llo \u{4e16}\u{754c}"), "i\u{e9}mmp \u{4e16}\u{754c}");
}

#[test]
fn caesar_empty_text() {
    let cipher = CaesarCipher { key: 7 };
    assert_eq!(cipher.encrypt(""), "");
    assert_eq!(cipher.decrypt(""), "");
}

#[test]
fn caesar_zero_key_is_identity() {
    let text = "The quick brown fox, 42 times!";
    assert_eq!(CaesarCipher { key: 0 }.encrypt(text), text);
    assert_eq!(CaesarCipher { key: 0 }.decrypt(text), text);
    assert_eq!(CaesarCipher { key: 26 }.encrypt(text), text);
    assert_eq!(CaesarCipher { key: -52 }.encrypt(text), text);
}

#[test]
fn caesar_negative_key() {
    let cipher = CaesarCipher { key: -1 };
    assert_eq!(cipher.encrypt("abc"), "zab");
    assert_eq!(cipher.decrypt("zab"), "abc");
    assert_eq!(CaesarCipher { key: -27 }.encrypt("abc"), "zab");
}

#[test]
fn caesar_key_beyond_the_alphabet() {
    assert_eq!(CaesarCipher { key: 29 }.encrypt("abc"), "def");
    assert_eq!(CaesarCipher { key: 39 }.encrypt("test"), "grfg");
    assert_eq!(CaesarCipher { key: 1000 }.encrypt("a"), "m");
}

#[test]
fn caesar_extreme_keys() {
    // i32::MAX is 23 modulo 26, i32::MIN is 2.
    assert_eq!(CaesarCipher { key: i32::MAX }.encrypt("a"), "x");
    assert_eq!(CaesarCipher { key: i32::MAX }.decrypt("x"), "a");
    assert_eq!(CaesarCipher { key: i32::MIN }.encrypt("a"), "c");
    assert_eq!(CaesarCipher { key: i32::MIN }.decrypt("c"), "a");
}

#[test]
fn caesar_round_trip_for_many_keys() {
    let text = "Attack at Dawn! (05:30) - \u{fc}ber";
    for key in [-1000, -27, -26, -13, -1, 0, 1, 5, 13, 25, 26, 27, 52, 999, i32::MIN, i32::MAX] {
        let cipher = CaesarCipher { key };
        assert_eq!(cipher.decrypt(&cipher.encrypt(text)), text);
        assert_eq!(cipher.encrypt(&cipher.decrypt(text)), text);
        assert_eq!(cipher.encrypt(text).chars().count(), text.chars().count());
    }
}
