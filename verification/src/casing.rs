//! When a text can be put in Pascal case.
//!
//! The conversion cuts a text into words: at every hyphen, underscore and
//! blank, and inside the pieces between them wherever the case changes or a
//! digit meets a letter. It counts the places of the cuts inside a piece in
//! characters and then cuts the piece at that number of bytes. Where such a
//! number does not fall between two characters, the conversion fails. This
//! module says of which texts it does not fail, and tests a text for it.

use crate::lexer::chars_of;
use crate::outside::is_lowercase;
use crate::outside::is_uppercase;
use crate::outside::lowercase;
use crate::outside::uppercase;
use vstd::prelude::*;

verus! {

/// Whether `c` ends a piece: a hyphen, an underscore or a blank.
pub open spec fn is_split(c: char) -> bool {
    c == '-' || c == '_' || c == ' '
}

/// Whether `c` is an ASCII digit.
pub open spec fn is_digit(c: char) -> bool {
    '0' <= c <= '9'
}

/// Whether `c` is an ASCII punctuation character.
pub open spec fn is_punctuation(c: char) -> bool {
    ||| '!' <= c <= '/'
    ||| ':' <= c <= '@'
    ||| '[' <= c <= '`'
    ||| '{' <= c <= '~'
}

/// Whether a word ends between the neighbours `first` and `second`: a
/// lowercase letter is followed by an uppercase one, a digit by something
/// that is neither digit nor punctuation, or something that is neither by
/// a digit.
pub open spec fn pair_breaks(first: char, second: char) -> bool {
    ||| lowercase(first) && uppercase(second)
    ||| is_digit(first) && !(is_digit(second) || is_punctuation(second))
    ||| !(is_digit(first) || is_punctuation(first)) && is_digit(second)
}

/// Whether a word ends between `first` and `second`, which `third`
/// follows: as for two neighbours, or two uppercase letters are followed by
/// a lowercase one.
pub open spec fn triple_breaks(first: char, second: char, third: char) -> bool {
    (uppercase(first) && uppercase(second) && lowercase(third)) || pair_breaks(first, second)
}

/// The number of bytes that `c` takes in UTF-8.
pub open spec fn width(c: char) -> int {
    if c <= '\u{7f}' {
        1
    } else if c <= '\u{7ff}' {
        2
    } else if c <= '\u{ffff}' {
        3
    } else {
        4
    }
}

/// The number of bytes that the characters from `from` up to `to` take.
pub open spec fn bytes(text: Seq<char>, from: int, to: int) -> int
    decreases to - from,
{
    if to <= from {
        0
    } else {
        bytes(text, from, to - 1) + width(text[to - 1])
    }
}

/// Where the piece begins that the character at `i` stands in, or would
/// stand in.
pub open spec fn piece_start(text: Seq<char>, i: int) -> int
    decreases i,
{
    if i <= 0 || is_split(text[i - 1]) {
        i
    } else {
        piece_start(text, i - 1)
    }
}

/// Whether the character at `i` has one before it in its piece.
pub open spec fn has_before(text: Seq<char>, i: int) -> bool {
    i >= 1 && !is_split(text[i - 1])
}

/// Whether the character at `i` has one behind it in its piece.
pub open spec fn has_behind(text: Seq<char>, i: int) -> bool {
    i + 1 < text.len() && !is_split(text[i + 1])
}

/// Whether a cut after as many bytes as there are characters from `start`
/// up to `i` falls between two characters: some run of characters from
/// `start` on takes exactly that many bytes.
pub open spec fn on_boundary(text: Seq<char>, start: int, i: int) -> bool {
    exists|j: int| start <= j <= i && #[trigger] bytes(text, start, j) == i - start
}

/// Whether the cut in front of the character at `i`, if there is one, falls
/// between two characters. In front of the last character of a piece the
/// cut is made one byte before the end of the piece, so that character must
/// take one byte. In front of any other the cut is made at its number among
/// the characters of the piece.
pub open spec fn cut_fits(text: Seq<char>, i: int) -> bool {
    if is_split(text[i]) || !has_before(text, i) {
        true
    } else if has_behind(text, i) {
        triple_breaks(text[i - 1], text[i], text[i + 1]) ==> on_boundary(
            text,
            piece_start(text, i),
            i,
        )
    } else {
        pair_breaks(text[i - 1], text[i]) ==> width(text[i]) == 1
    }
}

/// Whether `text` can be put in Pascal case: every cut falls between two
/// characters.
pub open spec fn cases_safely(text: Seq<char>) -> bool {
    forall|i: int| 0 <= i < text.len() ==> #[trigger] cut_fits(text, i)
}

/// A text of ASCII characters can always be put in Pascal case: each of
/// its characters takes one byte.
pub proof fn lemma_ascii_cases_safely(text: Seq<char>)
    requires
        forall|i: int| 0 <= i < text.len() ==> #[trigger] text[i] <= '\u{7f}',
    ensures
        cases_safely(text),
{
    assert forall|i: int| 0 <= i < text.len() implies #[trigger] cut_fits(text, i) by {
        lemma_piece_start(text, i);
        lemma_ascii_bytes(text, piece_start(text, i), i);
    }
}

/// A piece begins at or before the place it is asked for, and no piece ends
/// between its beginning and that place.
pub proof fn lemma_piece_start(text: Seq<char>, i: int)
    requires
        0 <= i,
    ensures
        0 <= piece_start(text, i) <= i,
        forall|j: int| piece_start(text, i) <= j < i ==> !is_split(#[trigger] text[j]),
    decreases i,
{
    if i > 0 && !is_split(text[i - 1]) {
        lemma_piece_start(text, i - 1);
    }
}

/// ASCII characters take as many bytes as they are.
pub proof fn lemma_ascii_bytes(text: Seq<char>, from: int, to: int)
    requires
        0 <= from <= to <= text.len(),
        forall|i: int| 0 <= i < text.len() ==> #[trigger] text[i] <= '\u{7f}',
    ensures
        bytes(text, from, to) == to - from,
    decreases to - from,
{
    if from < to {
        lemma_ascii_bytes(text, from, to - 1);
    }
}

/// Whether `c` ends a piece.
pub fn splits(c: char) -> (b: bool)
    ensures
        b == is_split(c),
{
    c == '-' || c == '_' || c == ' '
}

/// Whether a word ends between the neighbours `first` and `second`.
pub fn breaks_pair(first: char, second: char) -> (b: bool)
    ensures
        b == pair_breaks(first, second),
{
    let first_digit = '0' <= first && first <= '9';
    let second_digit = '0' <= second && second <= '9';
    (is_lowercase(first) && is_uppercase(second)) || (first_digit && !(second_digit
        || punctuation(second))) || (!(first_digit || punctuation(first)) && second_digit)
}

/// Whether a word ends between `first` and `second`, which `third`
/// follows.
pub fn breaks_triple(first: char, second: char, third: char) -> (b: bool)
    ensures
        b == triple_breaks(first, second, third),
{
    (is_uppercase(first) && is_uppercase(second) && is_lowercase(third)) || breaks_pair(
        first,
        second,
    )
}

/// Whether `c` is an ASCII punctuation character.
pub fn punctuation(c: char) -> (b: bool)
    ensures
        b == is_punctuation(c),
{
    ('!' <= c && c <= '/') || (':' <= c && c <= '@') || ('[' <= c && c <= '`') || ('{' <= c && c
        <= '~')
}

/// The number of bytes that `c` takes in UTF-8.
pub fn width_of(c: char) -> (w: u128)
    ensures
        w == width(c),
{
    if c <= '\u{7f}' {
        1
    } else if c <= '\u{7ff}' {
        2
    } else if c <= '\u{ffff}' {
        3
    } else {
        4
    }
}

/// Whether one of `offsets` is `wanted`.
fn holds(offsets: &Vec<u128>, wanted: u128) -> (b: bool)
    ensures
        b == holds_spec(offsets@, wanted),
{
    let mut j: usize = 0;
    while j < offsets.len()
        invariant
            j <= offsets.len(),
            forall|k: int| 0 <= k < j ==> #[trigger] offsets[k] != wanted,
        decreases offsets.len() - j,
    {
        if offsets[j] == wanted {
            return true;
        }
        j += 1;
    }
    false
}

/// Whether `text` can be put in Pascal case.
pub fn cases(text: &str) -> (b: bool)
    ensures
        b == cases_safely(text@),
{
    let chars = chars_of(text);
    let n = chars.len();
    let mut start: usize = 0;
    let mut offsets: Vec<u128> = Vec::new();
    offsets.push(0);
    let mut i: usize = 0;
    while i < n
        invariant
            n == chars.len(),
            chars@ == text@,
            i <= n,
            start <= i,
            start == piece_start(chars@, i as int),
            offsets.len() == i - start + 1,
            forall|j: int|
                0 <= j < offsets.len() ==> #[trigger] offsets[j] == bytes(
                    chars@,
                    start as int,
                    start + j,
                ) && offsets[j] <= 4 * j,
            forall|k: int| 0 <= k < i ==> #[trigger] cut_fits(chars@, k),
        decreases n - i,
    {
        let c = chars[i];
        proof {
            lemma_piece_start(chars@, i as int);
            if i > 0 {
                lemma_piece_start(chars@, i - 1);
            }
        }
        if splits(c) {
            start = i + 1;
            offsets = Vec::new();
            offsets.push(0);
        } else {
            if i > start {
                assert(!is_split(chars@[i - 1]));
                let before = chars[i - 1];
                let fits = if i + 1 < n && !splits(chars[i + 1]) {
                    !breaks_triple(before, c, chars[i + 1]) || holds(&offsets, (i - start) as u128)
                } else {
                    !breaks_pair(before, c) || width_of(c) == 1
                };
                proof {
                    let wanted = (i - start) as u128;
                    if on_boundary(chars@, start as int, i as int) {
                        let j = choose|j: int|
                            start <= j <= i && #[trigger] bytes(chars@, start as int, j) == i
                                - start;
                        assert(offsets[j - start] == wanted);
                        assert(holds_spec(offsets@, wanted));
                    }
                    if holds_spec(offsets@, wanted) {
                        let j = choose|j: int|
                            0 <= j < offsets.len() && #[trigger] offsets[j] == wanted;
                        assert(bytes(chars@, start as int, start + j) == i - start);
                        assert(on_boundary(chars@, start as int, i as int));
                    }
                    assert(fits == cut_fits(chars@, i as int));
                }
                if !fits {
                    return false;
                }
            } else {
                assert(cut_fits(chars@, i as int));
            }
            let last = offsets[offsets.len() - 1];
            let ghost old_offsets = offsets@;
            offsets.push(last + width_of(c));
            proof {
                assert forall|j: int| 0 <= j < offsets.len() implies #[trigger] offsets[j]
                    == bytes(chars@, start as int, start + j) && offsets[j] <= 4 * j by {
                    if j < old_offsets.len() {
                        assert(offsets[j] == old_offsets[j]);
                    }
                }
            }
        }
        i += 1;
    }
    true
}

/// Whether one of `offsets` is `wanted`.
pub open spec fn holds_spec(offsets: Seq<u128>, wanted: u128) -> bool {
    exists|j: int| 0 <= j < offsets.len() && #[trigger] offsets[j] == wanted
}

} // verus!
