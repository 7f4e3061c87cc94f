//! Splits a declaration into words and punctuation marks.
//!
//! A declaration is a short text. Blanks separate tokens and are dropped. A
//! word is a maximal run of word characters; every other character is a
//! punctuation mark of its own, a blank outside ASCII too, so that none
//! can hide in a name. Each token keeps the place it was found at,
//! so that a later stage can tell whether two marks touch and can cut the
//! text between two tokens.

use vstd::prelude::*;

verus! {

/// What a token is.
#[derive(Clone, Copy, Debug, PartialEq, Eq, Structural)]
pub enum TokenKind {
    /// A run of word characters.
    Word,
    /// A single character that is neither blank nor part of a word.
    Punct,
}

/// A token and the half-open range of characters that it covers.
#[derive(Clone, Copy, Debug, PartialEq, Eq, Structural)]
pub struct Token {
    /// Whether the token is a word or a mark.
    pub kind: TokenKind,
    /// The offset of its first character.
    pub start: usize,
    /// The offset behind its last character.
    pub end: usize,
}

/// Whether `c` separates tokens without being one.
pub open spec fn is_space(c: char) -> bool {
    c == ' ' || c == '\t' || c == '\n' || c == '\r'
}

/// Whether `c` is a blank outside ASCII: a character with the Unicode
/// property White_Space, one of the two direction marks, or the byte order
/// mark.
pub open spec fn is_wide_blank(c: char) -> bool {
    ||| c == '\u{85}'
    ||| c == '\u{a0}'
    ||| c == '\u{1680}'
    ||| '\u{2000}' <= c <= '\u{200a}'
    ||| c == '\u{200e}'
    ||| c == '\u{200f}'
    ||| c == '\u{2028}'
    ||| c == '\u{2029}'
    ||| c == '\u{202f}'
    ||| c == '\u{205f}'
    ||| c == '\u{3000}'
    ||| c == '\u{feff}'
}

/// Whether `c` can stand in a word: an ASCII letter or digit, an
/// underscore, or a character outside ASCII that is no blank.
pub open spec fn is_word_char(c: char) -> bool {
    ||| 'a' <= c <= 'z'
    ||| 'A' <= c <= 'Z'
    ||| '0' <= c <= '9'
    ||| c == '_'
    ||| c > '\u{7f}' && !is_wide_blank(c)
}

/// Whether `text` is made of word characters only.
pub open spec fn words_only(text: Seq<char>) -> bool {
    forall|i: int| 0 <= i < text.len() ==> is_word_char(#[trigger] text[i])
}

/// The end of the run of word characters that starts at `i`.
pub open spec fn word_end(text: Seq<char>, i: int) -> int
    decreases text.len() - i,
{
    if 0 <= i < text.len() && is_word_char(text[i]) {
        word_end(text, i + 1)
    } else {
        i
    }
}

/// The tokens of `text` from position `i` on.
pub open spec fn lex_from(text: Seq<char>, i: int) -> Seq<Token>
    decreases text.len() - i,
    via lex_from_decreases
{
    if i < 0 || i >= text.len() {
        Seq::empty()
    } else if is_space(text[i]) {
        lex_from(text, i + 1)
    } else if is_word_char(text[i]) {
        let end = word_end(text, i + 1);
        let word = Token { kind: TokenKind::Word, start: i as usize, end: end as usize };
        seq![word].add(lex_from(text, end))
    } else {
        let mark = Token { kind: TokenKind::Punct, start: i as usize, end: (i + 1) as usize };
        seq![mark].add(lex_from(text, i + 1))
    }
}

/// Lexing goes on behind a word, which ends behind the place it began at.
#[via_fn]
proof fn lex_from_decreases(text: Seq<char>, i: int) {
    if 0 <= i < text.len() {
        lemma_word_end_bounds(text, i + 1);
    }
}

/// The tokens of a whole text.
pub open spec fn lex_spec(text: Seq<char>) -> Seq<Token> {
    lex_from(text, 0)
}

/// Whether `tokens` lie in `text` one after the other: each covers at least
/// one character, none reaches past the end, and none overlaps the next.
pub open spec fn tokens_in(text: Seq<char>, tokens: Seq<Token>) -> bool {
    &&& forall|k: int|
        0 <= k < tokens.len() ==> (#[trigger] tokens[k]).start < tokens[k].end <= text.len()
    &&& forall|j: int, k: int|
        0 <= j < k < tokens.len() ==> (#[trigger] tokens[j]).end <= (#[trigger] tokens[k]).start
}

/// Whether a token says what stands at its place in `text`: a word covers
/// word characters only, a mark covers one character that is neither blank
/// nor a word character.
pub open spec fn token_matches(text: Seq<char>, token: Token) -> bool {
    match token.kind {
        TokenKind::Word => forall|p: int| token.start <= p < token.end ==> is_word_char(text[p]),
        TokenKind::Punct => {
            &&& token.end == token.start + 1
            &&& !is_space(text[token.start as int])
            &&& !is_word_char(text[token.start as int])
        },
    }
}

/// A run of word characters ends within the text, holds word characters
/// only, and is followed by none.
pub proof fn lemma_word_end_bounds(text: Seq<char>, i: int)
    requires
        0 <= i <= text.len(),
    ensures
        i <= word_end(text, i) <= text.len(),
        forall|p: int| i <= p < word_end(text, i) ==> is_word_char(text[p]),
        word_end(text, i) < text.len() ==> !is_word_char(text[word_end(text, i)]),
    decreases text.len() - i,
{
    if i < text.len() && is_word_char(text[i]) {
        lemma_word_end_bounds(text, i + 1);
    }
}

/// Every token that the lexer finds lies in the text at or after the place
/// where lexing began, matches what stands there, and precedes the next.
pub proof fn lemma_lex_from_tokens(text: Seq<char>, i: int)
    requires
        0 <= i <= text.len(),
        text.len() <= usize::MAX,
    ensures
        tokens_in(text, lex_from(text, i)),
        forall|k: int|
            0 <= k < lex_from(text, i).len() ==> i <= (#[trigger] lex_from(text, i)[k]).start,
        forall|k: int|
            0 <= k < lex_from(text, i).len() ==> token_matches(
                text,
                #[trigger] lex_from(text, i)[k],
            ),
    decreases text.len() - i,
{
    if i >= text.len() {
    } else if is_space(text[i]) {
        lemma_lex_from_tokens(text, i + 1);
    } else if is_word_char(text[i]) {
        let end = word_end(text, i + 1);
        lemma_word_end_bounds(text, i + 1);
        lemma_lex_from_tokens(text, end);
        let rest = lex_from(text, end);
        let all = lex_from(text, i);
        assert forall|k: int| 0 <= k < all.len() implies i <= (#[trigger] all[k]).start
            && all[k].start < all[k].end <= text.len() && token_matches(text, all[k]) by {
            if k > 0 {
                assert(all[k] == rest[k - 1]);
            }
        }
        assert forall|j: int, k: int| 0 <= j < k < all.len() implies (#[trigger] all[j]).end <= (
        #[trigger] all[k]).start by {
            assert(all[k] == rest[k - 1]);
            if j > 0 {
                assert(all[j] == rest[j - 1]);
            }
        }
    } else {
        lemma_lex_from_tokens(text, i + 1);
        let rest = lex_from(text, i + 1);
        let all = lex_from(text, i);
        assert forall|k: int| 0 <= k < all.len() implies i <= (#[trigger] all[k]).start
            && all[k].start < all[k].end <= text.len() && token_matches(text, all[k]) by {
            if k > 0 {
                assert(all[k] == rest[k - 1]);
            }
        }
        assert forall|j: int, k: int| 0 <= j < k < all.len() implies (#[trigger] all[j]).end <= (
        #[trigger] all[k]).start by {
            assert(all[k] == rest[k - 1]);
            if j > 0 {
                assert(all[j] == rest[j - 1]);
            }
        }
    }
}

/// Whether the token `token` covers the character at `p`.
pub open spec fn covers(token: Token, p: int) -> bool {
    token.start <= p < token.end
}

/// Whether every character of `text` from `from` on that is not blank is
/// covered by one of `tokens`.
pub open spec fn all_covered(text: Seq<char>, tokens: Seq<Token>, from: int) -> bool {
    forall|p: int|
        from <= p < text.len() && !is_space(#[trigger] text[p]) ==> exists|k: int|
            0 <= k < tokens.len() && covers(#[trigger] tokens[k], p)
}

/// Whether every word among `tokens` is a whole word: no word character
/// stands right before it or right behind it.
pub open spec fn words_whole(text: Seq<char>, tokens: Seq<Token>) -> bool {
    forall|k: int|
        0 <= k < tokens.len() && (#[trigger] tokens[k]).kind is Word ==> {
            &&& tokens[k].start == 0 || !is_word_char(text[tokens[k].start - 1])
            &&& tokens[k].end == text.len() || !is_word_char(text[tokens[k].end as int])
        }
}

/// The lexer leaves out nothing but blanks, and cuts no word in two.
pub proof fn lemma_lex_from_covers(text: Seq<char>, i: int)
    requires
        0 <= i <= text.len(),
        text.len() <= usize::MAX,
        i == 0 || i == text.len() || !is_word_char(text[i - 1]) || !is_word_char(text[i]),
    ensures
        all_covered(text, lex_from(text, i), i),
        words_whole(text, lex_from(text, i)),
    decreases text.len() - i,
{
    let all = lex_from(text, i);
    if i >= text.len() {
    } else if is_space(text[i]) {
        lemma_lex_from_covers(text, i + 1);
    } else {
        let end = if is_word_char(text[i]) {
            word_end(text, i + 1)
        } else {
            i + 1
        };
        lemma_word_end_bounds(text, i + 1);
        lemma_lex_from_covers(text, end);
        let rest = lex_from(text, end);
        assert(all.len() == rest.len() + 1);
        assert(covers(all[0], i));
        assert forall|p: int| i <= p < text.len() && !is_space(#[trigger] text[p]) implies exists|
            k: int,
        | 0 <= k < all.len() && covers(#[trigger] all[k], p) by {
            if p < end {
                assert(covers(all[0], p));
            } else {
                let k = choose|k: int| 0 <= k < rest.len() && covers(#[trigger] rest[k], p);
                assert(all[k + 1] == rest[k]);
                assert(covers(all[k + 1], p));
            }
        }
        assert forall|k: int| 0 <= k < all.len() && (#[trigger] all[k]).kind is Word implies (
        all[k].start == 0 || !is_word_char(text[all[k].start - 1])) && (all[k].end == text.len()
            || !is_word_char(text[all[k].end as int])) by {
            if k > 0 {
                assert(all[k] == rest[k - 1]);
            }
        }
    }
}

/// The tokens of a text lie in it one after the other, each says what
/// stands at its place, together they cover every character that is not
/// blank, and each word among them is a whole word.
pub proof fn lemma_lex_describes_text(text: Seq<char>)
    requires
        text.len() <= usize::MAX,
    ensures
        tokens_in(text, lex_spec(text)),
        forall|k: int|
            0 <= k < lex_spec(text).len() ==> token_matches(text, #[trigger] lex_spec(text)[k]),
        all_covered(text, lex_spec(text), 0),
        words_whole(text, lex_spec(text)),
{
    lemma_lex_from_tokens(text, 0);
    lemma_lex_from_covers(text, 0);
}

/// Whether `c` separates tokens.
pub fn space(c: char) -> (b: bool)
    ensures
        b == is_space(c),
{
    c == ' ' || c == '\t' || c == '\n' || c == '\r'
}

/// Whether `c` can stand in a word.
pub fn word_char(c: char) -> (b: bool)
    ensures
        b == is_word_char(c),
{
    ('a' <= c && c <= 'z') || ('A' <= c && c <= 'Z') || ('0' <= c && c <= '9') || c == '_' || (
    c > '\u{7f}' && !wide_blank(c))
}

/// Whether `c` is a blank outside ASCII.
pub fn wide_blank(c: char) -> (b: bool)
    ensures
        b == is_wide_blank(c),
{
    c == '\u{85}' || c == '\u{a0}' || c == '\u{1680}' || ('\u{2000}' <= c && c <= '\u{200a}')
        || c == '\u{200e}' || c == '\u{200f}' || c == '\u{2028}' || c == '\u{2029}' || c
        == '\u{202f}' || c == '\u{205f}' || c == '\u{3000}' || c == '\u{feff}'
}

/// Whether `text` is made of word characters only.
pub fn plain(text: &str) -> (b: bool)
    ensures
        b == words_only(text@),
{
    broadcast use vstd::string::group_string_axioms;

    let mut b = true;
    for c in it: text.chars()
        invariant
            it.seq() == text@,
            b == words_only(text@.take(it.index() as int)),
    {
        proof {
            let before = text@.take(it.index() as int);
            let now = text@.take(it.index() + 1);
            assert(now == before.push(c));
            assert(now[before.len() as int] == c);
            assert(forall|i: int| 0 <= i < before.len() ==> before[i] == now[i]);
            if words_only(before) && is_word_char(c) {
                assert forall|i: int| 0 <= i < now.len() implies is_word_char(
                    #[trigger] now[i],
                ) by {
                    if i < before.len() {
                        assert(is_word_char(before[i]));
                    }
                }
            }
            if words_only(now) {
                assert forall|i: int| 0 <= i < before.len() implies is_word_char(
                    #[trigger] before[i],
                ) by {
                    assert(is_word_char(now[i]));
                }
            }
        }
        if !word_char(c) {
            b = false;
        }
    }
    assert(text@.take(text@.len() as int) == text@);
    b
}

/// The characters of a text, one by one.
pub fn chars_of(input: &str) -> (chars: Vec<char>)
    ensures
        chars@ == input@,
{
    broadcast use vstd::string::group_string_axioms;

    let mut chars: Vec<char> = Vec::new();
    for c in it: input.chars()
        invariant
            it.seq() == input@,
            chars@ == input@.take(it.index() as int),
    {
        chars.push(c);
    }
    assert(chars@ == input@);
    chars
}

/// Splits `text` into its tokens.
pub fn lex(text: &Vec<char>) -> (tokens: Vec<Token>)
    ensures
        tokens@ == lex_spec(text@),
        tokens_in(text@, tokens@),
        forall|k: int| 0 <= k < tokens.len() ==> token_matches(text@, #[trigger] tokens@[k]),
{
    let n = text.len();
    let mut tokens: Vec<Token> = Vec::new();
    let mut i: usize = 0;
    while i < n
        invariant
            n == text.len(),
            i <= n,
            lex_spec(text@) == tokens@ + lex_from(text@, i as int),
        decreases n - i,
    {
        let c = text[i];
        if space(c) {
            i += 1;
        } else if word_char(c) {
            let start = i;
            i += 1;
            while i < n && word_char(text[i])
                invariant
                    n == text.len(),
                    start < i <= n,
                    word_end(text@, start + 1) == word_end(text@, i as int),
                decreases n - i,
            {
                i += 1;
            }
            let ghost before = tokens@;
            tokens.push(Token { kind: TokenKind::Word, start, end: i });
            assert(tokens@ + lex_from(text@, i as int) == before + lex_from(text@, start as int));
        } else {
            let ghost before = tokens@;
            tokens.push(Token { kind: TokenKind::Punct, start: i, end: i + 1 });
            assert(tokens@ + lex_from(text@, i + 1) == before + lex_from(text@, i as int));
            i += 1;
        }
    }
    proof {
        assert(tokens@ == lex_spec(text@));
        lemma_lex_from_tokens(text@, 0);
    }
    tokens
}

} // verus!
