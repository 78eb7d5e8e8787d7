use crypto_cli_tool::ciphers::alphabet::{
    ascii_lower, ascii_upper, is_all_letters, is_ascii_letter, is_ascii_lower, is_ascii_upper,
    shift_letter,
};
use crypto_cli_tool::ciphers::text::chars_of;

#[test]
fn letters_are_told_from_other_characters() {
    for c in ['a', 'm', 'z'] {
        assert!(is_ascii_lower(c) && !is_ascii_upper(c) && is_ascii_letter(c));
    }
    for c in ['A', 'M', 'Z'] {
        assert!(is_ascii_upper(c) && !is_ascii_lower(c) && is_ascii_letter(c));
    }
    for c in ['@', '[', '`', '{', '0', ' ', '\n', '\u{e9}', '\u{c9}', '\u{4e16}'] {
        assert!(!is_ascii_upper(c) && !is_ascii_lower(c) && !is_ascii_letter(c));
    }
}

#[test]
fn case_is_changed_for_letters_only() {
    assert_eq!(ascii_upper('a'), 'A');
    assert_eq!(ascii_upper('z'), 'Z');
    assert_eq!(ascii_upper('Q'), 'Q');
    assert_eq!(ascii_lower('A'), 'a');
    assert_eq!(ascii_lower('Z'), 'z');
    assert_eq!(ascii_lower('q'), 'q');
    for c in ['@', '[', '`', '{', '7', ' ', '\u{e9}', '\u{c9}'] {
        assert_eq!(ascii_upper(c), c);
        assert_eq!(ascii_lower(c), c);
    }
}

#[test]
fn case_changes_agree_with_the_standard_library() {
    for code in 0u32..0x250 {
        let c = char::from_u32(code).unwrap();
        assert_eq!(ascii_upper(c), c.to_ascii_uppercase());
        assert_eq!(ascii_lower(c), c.to_ascii_lowercase());
        assert_eq!(is_ascii_letter(c), c.is_ascii_alphabetic());
        assert_eq!(is_ascii_upper(c), c.is_ascii_uppercase());
        assert_eq!(is_ascii_lower(c), c.is_ascii_lowercase());
    }
}

#[test]
fn letters_shift_round_the_alphabet() {
    assert_eq!(shift_letter('a', 0), 'a');
    assert_eq!(shift_letter('a', 1), 'b');
    assert_eq!(shift_letter('a', 25), 'z');
    assert_eq!(shift_letter('z', 1), 'a');
    assert_eq!(shift_letter('Z', 25), 'Y');
    assert_eq!(shift_letter('M', 13), 'Z');
    assert_eq!(shift_letter('N', 13), 'A');
    assert_eq!(shift_letter('5', 13), '5');
    assert_eq!(shift_letter('\u{e9}', 13), '\u{e9}');
}

#[test]
fn texts_of_letters_are_recognised() {
    assert!(is_all_letters(""));
    assert!(is_all_letters("Secret"));
    assert!(!is_all_letters("two words"));
    assert!(!is_all_letters("abc1"));
    assert!(!is_all_letters("caf\u{e9}"));
    assert!(!is_all_letters("!abc"));
}

#[test]
fn chars_of_lists_the_characters() {
    assert_eq!(chars_of(""), Vec::<char>::new());
    assert_eq!(chars_of("a b"), vec!['a', ' ', 'b']);
    assert_eq!(chars_of("h\u{e9}\u{4e16}!"), vec!['h', '\u{e9}', '\u{4e16}', '!']);
}
