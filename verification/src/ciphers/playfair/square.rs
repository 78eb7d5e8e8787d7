//! The key square of the Playfair cipher: what it holds, how it is built
//! from a key, and where its letters are found.

use vstd::prelude::*;
use vstd::seq_lib::{lemma_seq_contains_after_push, seq_to_set_is_finite};
use vstd::set_lib::lemma_len_subset;
use crate::ciphers::alphabet::{is_upper, to_upper, upper_alphabet};

verus! {

/// A letter that has a cell of its own in a key square: `A` to `Z` without `J`.
pub open spec fn is_square_letter(c: char) -> bool {
    is_upper(c) && c != 'J'
}

/// The letter in whose cell `c` is looked up: `I` for `J`, else `c` itself.
pub open spec fn merged(c: char) -> char {
    if c == 'J' {
        'I'
    } else {
        c
    }
}

/// The 25 letters of a key square, in alphabetical order.
pub open spec fn square_letters() -> Seq<char> {
    Seq::new(
        25,
        |i: int|
            if i < 9 {
                ('A' as int + i) as char
            } else {
                ('A' as int + i + 1) as char
            },
    )
}

/// The cells of a 5×5 array, row by row.
pub open spec fn square_cells(m: [[char; 5]; 5]) -> Seq<char> {
    Seq::new(25, |i: int| m[i / 5][i % 5])
}

/// `cells` is a key square: 25 cells that hold the letters `A` to `Z`
/// without `J`, each of them exactly once.
pub open spec fn is_key_square(cells: Seq<char>) -> bool {
    &&& cells.len() == 25
    &&& cells.no_duplicates()
    &&& forall|c: char| is_square_letter(c) <==> #[trigger] cells.contains(c)
}

/// `key` is a cleaned key: letters of the square only, none of them twice.
pub open spec fn is_clean_key(key: Seq<char>) -> bool {
    &&& key.no_duplicates()
    &&& forall|i: int| 0 <= i < key.len() ==> is_square_letter(#[trigger] key[i])
}

/// The cleaned form of a raw key: its characters in upper case, in order,
/// keeping of each letter of the square its first occurrence and dropping
/// everything else (`J`, repeated letters, characters that are no letters).
pub open spec fn clean_key(raw: Seq<char>) -> Seq<char>
    decreases raw.len(),
{
    if raw.len() == 0 {
        Seq::empty()
    } else {
        let before = clean_key(raw.drop_last());
        let c = to_upper(raw.last());
        if is_square_letter(c) && !before.contains(c) {
            before.push(c)
        } else {
            before
        }
    }
}

/// Tells whether a letter still has to be placed after the key: it is not
/// `J`, and the key does not hold it.
pub open spec fn is_missing_from(key: Seq<char>) -> spec_fn(char) -> bool {
    |c: char| c != 'J' && !key.contains(c)
}

/// The key followed by those of the first `n` letters of the alphabet that
/// the key leaves out, in alphabetical order.
pub open spec fn partial_square(key: Seq<char>, n: int) -> Seq<char> {
    key + upper_alphabet().take(n).filter(is_missing_from(key))
}

/// The square that belongs to a cleaned key: the key, then every other
/// letter of the square in alphabetical order.
pub open spec fn key_square(key: Seq<char>) -> Seq<char> {
    key + upper_alphabet().filter(is_missing_from(key))
}

/// The letter in the given row and column of a square.
pub open spec fn cell(square: Seq<char>, row: int, col: int) -> char {
    square[5 * row + col]
}

/// Row and column of the cell of `square` in which `c` is looked up.
pub open spec fn position(square: Seq<char>, c: char) -> (int, int) {
    let i = square.index_of(merged(c));
    (i / 5, i % 5)
}

/// The letters of the square stand in it, each once.
pub proof fn lemma_square_letters()
    ensures
        is_key_square(square_letters()),
{
    let a = square_letters();
    assert forall|c: char| is_square_letter(c) implies #[trigger] a.contains(c) by {
        let i = if 'J' > c {
            c as int - 'A' as int
        } else {
            c as int - 'A' as int - 1
        };
        assert(a[i] == c);
    }
}

/// A cleaned key has at most 25 letters.
pub proof fn lemma_clean_key_bounded(key: Seq<char>)
    requires
        is_clean_key(key),
    ensures
        key.len() <= 25,
{
    let a = square_letters();
    lemma_square_letters();
    a.unique_seq_to_set();
    seq_to_set_is_finite(a);
    assert forall|c: char| key.to_set().contains(c) implies a.to_set().contains(c) by {
        assert(key.contains(c));
        assert(a.contains(c));
    }
    lemma_len_subset(key.to_set(), a.to_set());
    key.unique_seq_to_set();
}

/// A cleaned key that holds every letter of the square is a key square.
pub proof fn lemma_full_key_is_square(key: Seq<char>)
    requires
        is_clean_key(key),
        forall|c: char| is_square_letter(c) ==> key.contains(c),
    ensures
        is_key_square(key),
{
    let a = square_letters();
    lemma_square_letters();
    lemma_clean_key_bounded(key);
    a.unique_seq_to_set();
    seq_to_set_is_finite(key);
    assert forall|c: char| a.to_set().contains(c) implies key.to_set().contains(c) by {
        assert(a.contains(c));
        assert(key.contains(c));
    }
    lemma_len_subset(a.to_set(), key.to_set());
    key.unique_seq_to_set();
}

/// Cleaning a raw key gives a cleaned key.
pub proof fn lemma_clean_key_is_clean(raw: Seq<char>)
    ensures
        is_clean_key(clean_key(raw)),
    decreases raw.len(),
{
    if raw.len() > 0 {
        lemma_clean_key_is_clean(raw.drop_last());
    }
}

/// A partial square is a cleaned key, and holds the key and those of the
/// first `n` letters of the alphabet that belong in a square.
pub proof fn lemma_partial_square(key: Seq<char>, n: int)
    requires
        is_clean_key(key),
        0 <= n <= 26,
    ensures
        is_clean_key(partial_square(key, n)),
        forall|c: char| #[trigger]
            partial_square(key, n).contains(c) <==> key.contains(c) || (is_square_letter(c)
                && (c as int) < 'A' as int + n),
        n < 26 ==> partial_square(key, n + 1) == (if is_missing_from(key)(upper_alphabet()[n]) {
            partial_square(key, n).push(upper_alphabet()[n])
        } else {
            partial_square(key, n)
        }),
    decreases n,
{
    let missing = is_missing_from(key);
    let letters = upper_alphabet();
    if n == 0 {
        assert(letters.take(0) =~= Seq::<char>::empty());
        assert(partial_square(key, 0) =~= key);
    } else {
        lemma_partial_square(key, n - 1);
        let before = partial_square(key, n - 1);
        let now = partial_square(key, n);
        let e = letters[n - 1];
        assert(now == if missing(e) {
            before.push(e)
        } else {
            before
        });
        if missing(e) {
            assert(is_square_letter(e));
            assert(!before.contains(e));
        }
        assert forall|c: char| #[trigger]
            now.contains(c) <==> key.contains(c) || (is_square_letter(c) && (c as int) < 'A' as int
                + n) by {
            lemma_seq_contains_after_push(before, e, c);
        }
    }
    if n < 26 {
        let e = letters[n];
        assert(letters.take(n + 1) =~= letters.take(n).push(e));
        letters.take(n).lemma_filter_push(e, missing);
        assert(partial_square(key, n + 1) =~= (if missing(e) {
            partial_square(key, n).push(e)
        } else {
            partial_square(key, n)
        }));
    }
}

/// The square of a cleaned key is a key square.
pub proof fn lemma_key_square(key: Seq<char>)
    requires
        is_clean_key(key),
    ensures
        is_key_square(key_square(key)),
        key_square(key) == partial_square(key, 26),
{
    assert(upper_alphabet().take(26) =~= upper_alphabet());
    lemma_partial_square(key, 26);
    lemma_full_key_is_square(partial_square(key, 26));
}

/// In a key square every upper-case letter is found, in the one cell that
/// holds it (or `I`, for `J`).
pub proof fn lemma_position(square: Seq<char>, c: char)
    requires
        is_key_square(square),
        is_upper(c),
    ensures
        0 <= position(square, c).0 < 5,
        0 <= position(square, c).1 < 5,
        cell(square, position(square, c).0, position(square, c).1) == merged(c),
{
    assert(is_square_letter(merged(c)));
    assert(square.contains(merged(c)));
}

/// In a key square the letter of a cell is found in that cell.
pub proof fn lemma_cell(square: Seq<char>, row: int, col: int)
    requires
        is_key_square(square),
        0 <= row < 5,
        0 <= col < 5,
    ensures
        is_square_letter(cell(square, row, col)),
        position(square, cell(square, row, col)) == (row, col),
{
    let c = cell(square, row, col);
    assert(square[5 * row + col] == c);
    assert(square.contains(c));
    let i = square.index_of(c);
    assert(i == 5 * row + col);
}

} // verus!
