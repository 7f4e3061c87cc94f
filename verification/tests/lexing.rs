use sfsm::lexer::chars_of;
use sfsm::lexer::lex;
use sfsm::lexer::space;
use sfsm::lexer::wide_blank;
use sfsm::lexer::word_char;
use sfsm::lexer::Token;
use sfsm::lexer::TokenKind;

fn word(start: usize, end: usize) -> Token {
    Token { kind: TokenKind::Word, start, end }
}

fn mark(start: usize) -> Token {
    Token { kind: TokenKind::Punct, start, end: start + 1 }
}

#[test]
fn empty_text_has_no_tokens() {
    assert_eq!(lex(&chars_of("")), vec![]);
    assert_eq!(lex(&chars_of(" \t\r\n")), vec![]);
}

#[test]
fn words_and_marks_keep_their_places() {
    let tokens = lex(&chars_of("Foo, [Bar_1 => B]"));
    assert_eq!(
        tokens,
        vec![word(0, 3), mark(3), mark(5), word(6, 11), mark(12), mark(13), word(15, 16), mark(16)]
    );
}

#[test]
fn a_word_is_a_maximal_run() {
    assert_eq!(lex(&chars_of("ab cd")), vec![word(0, 2), word(3, 5)]);
    assert_eq!(lex(&chars_of("a<b>")), vec![word(0, 1), mark(1), word(2, 3), mark(3)]);
}

#[test]
fn characters_outside_ascii_stand_in_words() {
    assert_eq!(lex(&chars_of("Zustände")), vec![word(0, 8)]);
    assert!(word_char('ä'));
}

#[test]
fn blanks_outside_ascii_are_no_word_characters() {
    for c in ['\u{85}', '\u{a0}', '\u{1680}', '\u{2000}', '\u{200a}', '\u{200e}', '\u{200f}'] {
        assert!(wide_blank(c) && !word_char(c) && !space(c));
    }
    for c in ['\u{2028}', '\u{2029}', '\u{202f}', '\u{205f}', '\u{3000}', '\u{feff}'] {
        assert!(wide_blank(c) && !word_char(c));
    }
    assert!(!wide_blank('ä') && !wide_blank('\u{200b}') && !wide_blank(' '));
    assert_eq!(lex(&chars_of("\u{a0}Foo")), vec![mark(0), word(1, 4)]);
}

#[test]
fn character_classes() {
    assert!(space(' ') && space('\t') && space('\n') && space('\r'));
    assert!(!space('a') && !space(','));
    assert!(word_char('a') && word_char('Z') && word_char('0') && word_char('_'));
    assert!(!word_char('<') && !word_char(' ') && !word_char('-') && !word_char('\''));
}

#[test]
fn chars_of_keeps_every_character() {
    assert_eq!(chars_of("a→b"), vec!['a', '→', 'b']);
}
