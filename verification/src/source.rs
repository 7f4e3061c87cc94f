//! Reading names, parameter lists and states from a declaration.
//!
//! A state is a name with an optional parameter list in angle brackets.
//! What can be read is stated over the tokens of the text, as functions from
//! a position to what is read there and the position behind it.

use crate::error::DeclarationError;
use crate::error::yields_at;
use crate::ident::identifier;
use crate::ident::is_identifier;
use crate::lexer::chars_of;
use crate::lexer::lemma_lex_from_tokens;
use crate::lexer::lex;
use crate::lexer::lex_spec;
use crate::lexer::Token;
use crate::lexer::TokenKind;
use crate::lexer::tokens_in;
use crate::outside::is_barred;
use crate::outside::MAX_PARAMETERS;
use crate::outside::push_char;
use crate::outside::render_parameters;
use crate::outside::rendered_parameters;
use crate::outside::unbarred;
use crate::types::State;
use crate::types::state_view;
use crate::types::StateView;
use vstd::prelude::*;

verus! {

/// The character offset of token `i`, or the length of the text where there
/// is no such token.
pub open spec fn offset(text: Seq<char>, i: int) -> usize {
    if 0 <= i < lex_spec(text).len() {
        lex_spec(text)[i].start
    } else {
        text.len() as usize
    }
}

/// Whether token `i` is a word.
pub open spec fn is_word(text: Seq<char>, i: int) -> bool {
    0 <= i < lex_spec(text).len() && lex_spec(text)[i].kind is Word
}

/// Whether token `i` is the punctuation mark `c`.
pub open spec fn is_mark(text: Seq<char>, i: int, c: char) -> bool {
    &&& 0 <= i < lex_spec(text).len()
    &&& lex_spec(text)[i].kind is Punct
    &&& text[lex_spec(text)[i].start as int] == c
}

/// Whether token `i` is followed by another with nothing in between.
pub open spec fn touches(text: Seq<char>, i: int) -> bool {
    &&& 0 <= i
    &&& i + 1 < lex_spec(text).len()
    &&& lex_spec(text)[i].end == lex_spec(text)[i + 1].start
}

/// Whether tokens `i` and `i + 1` are the two marks `first` and `second`,
/// written as one arrow.
pub open spec fn is_arrow(text: Seq<char>, i: int, first: char, second: char) -> bool {
    is_mark(text, i, first) && touches(text, i) && is_mark(text, i + 1, second)
}

/// The characters that token `i` covers.
pub open spec fn word_at(text: Seq<char>, i: int) -> Seq<char> {
    text.subrange(lex_spec(text)[i].start as int, lex_spec(text)[i].end as int)
}

/// Whether `c` opens a group in which angle brackets are not counted.
pub open spec fn opens_group(c: char) -> bool {
    c == '(' || c == '[' || c == '{'
}

/// Whether `c` closes such a group.
pub open spec fn closes_group(c: char) -> bool {
    c == ')' || c == ']' || c == '}'
}

/// The token that closes the character literal which token `i` opens: a
/// quote, one character, and a quote again, with nothing else in between.
/// The character in the middle is a token of its own unless it is a blank.
/// A quote that begins a lifetime opens no literal, since no quote follows
/// the lifetime's first character.
pub open spec fn quoted_end(text: Seq<char>, i: int) -> Option<int> {
    let tokens = lex_spec(text);
    if !is_mark(text, i, '\'') {
        None
    } else if is_mark(text, i + 1, '\'') && tokens[i + 1].start == tokens[i].start + 2 {
        Some(i + 1)
    } else if i + 1 < tokens.len() && tokens[i + 1].start == tokens[i].start + 1 && tokens[i
        + 1].end == tokens[i].start + 2 && is_mark(text, i + 2, '\'') && tokens[i + 2].start
        == tokens[i].start + 2 {
        Some(i + 2)
    } else {
        None
    }
}

/// The token that closes a parameter list, sought from token `i` on. There
/// are `depth` angle brackets open, and `nest` groups. Inside a group no
/// angle bracket counts, and a `>` that ends the arrow `->` never does. A
/// character literal is passed over whole, whatever it holds. A group that
/// closes without having been opened ends the search.
pub open spec fn scan_close(text: Seq<char>, i: int, depth: nat, nest: nat) -> Option<int>
    decreases lex_spec(text).len() - i,
{
    let tokens = lex_spec(text);
    if i < 0 || i >= tokens.len() {
        None
    } else if tokens[i].kind is Word {
        scan_close(text, i + 1, depth, nest)
    } else if quoted_end(text, i) is Some {
        scan_close(text, quoted_end(text, i).unwrap() + 1, depth, nest)
    } else {
        let c = text[tokens[i].start as int];
        if opens_group(c) {
            scan_close(text, i + 1, depth, nest + 1)
        } else if closes_group(c) {
            if nest == 0 {
                None
            } else {
                scan_close(text, i + 1, depth, (nest - 1) as nat)
            }
        } else if nest > 0 {
            scan_close(text, i + 1, depth, nest)
        } else if c == '<' {
            scan_close(text, i + 1, depth + 1, nest)
        } else if c == '>' && !is_arrow(text, i - 1, '-', '>') {
            if depth <= 1 {
                Some(i)
            } else {
                scan_close(text, i + 1, (depth - 1) as nat, nest)
            }
        } else {
            scan_close(text, i + 1, depth, nest)
        }
    }
}

/// The `>` that closes the parameter list opened by the `<` at token `open`.
pub open spec fn closing_angle(text: Seq<char>, open: int) -> Option<int> {
    scan_close(text, open + 1, 1, 0)
}

/// A closing token lies behind the place where the search began.
pub proof fn lemma_scan_close_bounds(text: Seq<char>, i: int, depth: nat, nest: nat)
    requires
        0 <= i,
    ensures
        scan_close(text, i, depth, nest) matches Some(close) ==> i <= close < lex_spec(text).len()
            && is_mark(text, close, '>'),
    decreases lex_spec(text).len() - i,
{
    let tokens = lex_spec(text);
    if i < tokens.len() {
        lemma_scan_close_bounds(text, i + 1, depth, nest);
        match quoted_end(text, i) {
            Some(q) => {
                lemma_scan_close_bounds(text, q + 1, depth, nest);
            },
            None => {},
        }
        lemma_scan_close_bounds(text, i + 1, depth, nest + 1);
        lemma_scan_close_bounds(text, i + 1, depth + 1, nest);
        if nest > 0 {
            lemma_scan_close_bounds(text, i + 1, depth, (nest - 1) as nat);
        }
        if depth > 1 {
            lemma_scan_close_bounds(text, i + 1, (depth - 1) as nat, nest);
        }
    }
}

/// The name read at token `i`: a word that is an identifier.
pub open spec fn ident_at(text: Seq<char>, i: int) -> Result<(Seq<char>, int), DeclarationError> {
    if !is_word(text, i) {
        Err(DeclarationError::Syntax { at: offset(text, i) })
    } else if !is_identifier(word_at(text, i)) {
        Err(DeclarationError::Identifier)
    } else {
        Ok((word_at(text, i), i + 1))
    }
}

/// The text of the parameter list that opens at token `open` and closes at
/// token `close`, brackets included.
pub open spec fn span_text(text: Seq<char>, open: int, close: int) -> Seq<char> {
    text.subrange(lex_spec(text)[open].start as int, lex_spec(text)[close].end as int)
}

/// The parameter list read at token `i`, which opens it: the list as it is
/// printed once parsed, and the position behind its closing bracket. A list
/// that is too long, or holds a double quote, a backslash or a slash, is
/// refused.
pub open spec fn parameters_at(text: Seq<char>, i: int) -> Result<
    (Seq<char>, int),
    DeclarationError,
> {
    match closing_angle(text, i) {
        None => Err(DeclarationError::Parameters),
        Some(close) => if span_text(text, i, close).len() > MAX_PARAMETERS || !unbarred(
            span_text(text, i, close),
        ) {
            Err(DeclarationError::Parameters)
        } else {
            match rendered_parameters(span_text(text, i, close)) {
                None => Err(DeclarationError::Parameters),
                Some(rendering) => Ok((rendering, close + 1)),
            }
        },
    }
}

/// The optional parameter list behind a name. After the name of a message
/// a `<` that is followed by `-` opens no list: it begins the arrow `<-`.
pub open spec fn generics_at(text: Seq<char>, i: int, message: bool) -> Result<
    (Option<Seq<char>>, int),
    DeclarationError,
> {
    if is_mark(text, i, '<') && !(message && is_mark(text, i + 1, '-')) {
        match parameters_at(text, i) {
            Err(e) => Err(e),
            Ok((rendering, next)) => Ok((Some(rendering), next)),
        }
    } else {
        Ok((None, i))
    }
}

/// The state read at token `i`.
pub open spec fn state_at(text: Seq<char>, i: int) -> Result<(StateView, int), DeclarationError> {
    match ident_at(text, i) {
        Err(e) => Err(e),
        Ok((name, j)) => match generics_at(text, j, false) {
            Err(e) => Err(e),
            Ok((generics, k)) => match state_view(name, generics) {
                Err(e) => Err(e),
                Ok(state) => Ok((state, k)),
            },
        },
    }
}

/// What is read from a position on ends behind that position, within the
/// tokens.
pub proof fn lemma_state_at_advances(text: Seq<char>, i: int)
    requires
        0 <= i,
    ensures
        ident_at(text, i) matches Ok((_, j)) ==> j == i + 1 && j <= lex_spec(text).len(),
        parameters_at(text, i) matches Ok((_, j)) ==> i < j <= lex_spec(text).len(),
        generics_at(text, i, true) matches Ok((_, j)) ==> i <= j && (i <= lex_spec(text).len()
            ==> j <= lex_spec(text).len()),
        generics_at(text, i, false) matches Ok((_, j)) ==> i <= j && (i <= lex_spec(text).len()
            ==> j <= lex_spec(text).len()),
        state_at(text, i) matches Ok((_, j)) ==> i < j <= lex_spec(text).len(),
{
    lemma_scan_close_bounds(text, i + 1, 1, 0);
    lemma_scan_close_bounds(text, i + 2, 1, 0);
}

/// A state is read from a word, which is its name. Where a `<` follows
/// the word, the parameter list up to the `>` that closes it belongs to the
/// state, as it is printed once parsed. Where none follows, the state has
/// no parameter list and ends with its name.
pub proof fn lemma_state_at_reads(text: Seq<char>, i: int)
    ensures
        state_at(text, i) matches Ok((state, next)) ==> {
            &&& is_word(text, i)
            &&& state.name == word_at(text, i)
            &&& state.wf()
            &&& if is_mark(text, i + 1, '<') {
                &&& closing_angle(text, i + 1) == Some(next - 1)
                &&& state.generics == rendered_parameters(span_text(text, i + 1, next - 1))
            } else {
                state.generics is None && next == i + 1
            }
        },
{
}

/// A declaration and its tokens.
pub struct Source {
    text: Vec<char>,
    tokens: Vec<Token>,
}

impl View for Source {
    type V = Seq<char>;

    closed spec fn view(&self) -> Seq<char> {
        self.text@
    }
}

impl Source {
    /// The tokens are those of the text.
    #[verifier::type_invariant]
    spec fn inv(self) -> bool {
        &&& self.tokens@ == lex_spec(self.text@)
        &&& self.text@.len() <= usize::MAX
        &&& self.tokens@.len() <= usize::MAX
    }

    /// Splits `input` into tokens and keeps both.
    pub fn new(input: &str) -> (source: Source)
        ensures
            source@ == input@,
    {
        let text = chars_of(input);
        let tokens = lex(&text);
        let _ = text.len();
        let _ = tokens.len();
        Source { text, tokens }
    }

    /// The number of tokens.
    pub fn len(&self) -> (n: usize)
        ensures
            n == lex_spec(self@).len(),
    {
        proof {
            use_type_invariant(self);
        }
        self.tokens.len()
    }

    /// The character offset of token `i`, or the length of the text.
    pub fn offset(&self, i: usize) -> (at: usize)
        ensures
            at == offset(self@, i as int),
    {
        proof {
            use_type_invariant(self);
        }
        if i < self.tokens.len() {
            self.tokens[i].start
        } else {
            self.text.len()
        }
    }

    /// Whether token `i` is a word.
    pub fn word(&self, i: usize) -> (b: bool)
        ensures
            b == is_word(self@, i as int),
    {
        proof {
            use_type_invariant(self);
        }
        i < self.tokens.len() && self.tokens[i].kind == TokenKind::Word
    }

    /// Whether token `i` is the punctuation mark `c`.
    pub fn mark(&self, i: usize, c: char) -> (b: bool)
        ensures
            b == is_mark(self@, i as int, c),
    {
        proof {
            use_type_invariant(self);
            lemma_lex_from_tokens(self.text@, 0);
        }
        i < self.tokens.len() && self.tokens[i].kind == TokenKind::Punct
            && self.text[self.tokens[i].start] == c
    }

    /// Whether tokens `i` and `i + 1` are the arrow made of `first` and
    /// `second`.
    pub fn arrow(&self, i: usize, first: char, second: char) -> (b: bool)
        ensures
            b == is_arrow(self@, i as int, first, second),
    {
        proof {
            use_type_invariant(self);
        }
        if !self.mark(i, first) {
            return false;
        }
        i + 1 < self.tokens.len() && self.tokens[i].end == self.tokens[i + 1].start && self.mark(
            i + 1,
            second,
        )
    }

    /// The characters from offset `from` up to offset `to`, as a string.
    pub fn slice(&self, from: usize, to: usize) -> (text: String)
        requires
            from <= to <= self@.len(),
        ensures
            text@ == self@.subrange(from as int, to as int),
    {
        let mut text = String::new();
        let mut i = from;
        while i < to
            invariant
                from <= i <= to <= self.text@.len(),
                text@ == self.text@.subrange(from as int, i as int),
            decreases to - i,
        {
            push_char(&mut text, self.text[i]);
            i += 1;
        }
        text
    }

    /// Whether no double quote, backslash or slash stands between the
    /// offsets `from` and `to`.
    pub fn unbarred(&self, from: usize, to: usize) -> (b: bool)
        requires
            from <= to <= self@.len(),
        ensures
            b == unbarred(self@.subrange(from as int, to as int)),
    {
        let ghost span = self.text@.subrange(from as int, to as int);
        let mut i = from;
        while i < to
            invariant
                from <= i <= to <= self.text@.len(),
                span == self.text@.subrange(from as int, to as int),
                forall|k: int| 0 <= k < i - from ==> !is_barred(#[trigger] span[k]),
            decreases to - i,
        {
            let c = self.text[i];
            if c == '"' || c == '\\' || c == '/' {
                assert(span[i - from] == c);
                return false;
            }
            i += 1;
        }
        true
    }

    /// The token that closes the character literal which token `i` opens.
    pub fn quoted_end(&self, i: usize) -> (end: Option<usize>)
        ensures
            match end {
                Some(q) => quoted_end(self@, i as int) == Some(q as int) && i < q
                    < lex_spec(self@).len(),
                None => quoted_end(self@, i as int) is None,
            },
    {
        proof {
            use_type_invariant(self);
            lemma_lex_from_tokens(self.text@, 0);
        }
        let n = self.tokens.len();
        if !self.mark(i, '\'') {
            return None;
        }
        let start = self.tokens[i].start;
        if i + 1 >= n {
            return None;
        }
        let next = self.tokens[i + 1];
        if next.start - start == 2 && self.mark(i + 1, '\'') {
            return Some(i + 1);
        }
        if next.start - start == 1 && next.end - start == 2 && i + 2 < n && self.tokens[i
            + 2].start - start == 2 && self.mark(i + 2, '\'') {
            return Some(i + 2);
        }
        None
    }

    /// The `>` that closes the parameter list opened at token `open`.
    pub fn closing_angle(&self, open: usize) -> (close: Option<usize>)
        ensures
            match close {
                Some(c) => closing_angle(self@, open as int) == Some(c as int),
                None => closing_angle(self@, open as int) is None,
            },
    {
        proof {
            use_type_invariant(self);
            lemma_lex_from_tokens(self.text@, 0);
        }
        let n = self.tokens.len();
        if open >= n {
            return None;
        }
        let mut i: usize = open + 1;
        let mut depth: usize = 1;
        let mut nest: usize = 0;
        while i < n
            invariant
                n == self.tokens.len(),
                self.tokens@ == lex_spec(self.text@),
                tokens_in(self.text@, self.tokens@),
                open < i <= n,
                1 <= depth,
                depth + nest <= i - open,
                closing_angle(self.text@, open as int) == scan_close(
                    self.text@,
                    i as int,
                    depth as nat,
                    nest as nat,
                ),
            decreases n - i,
        {
            if self.tokens[i].kind == TokenKind::Punct {
                let c = self.text[self.tokens[i].start];
                let quoted = self.quoted_end(i);
                if quoted.is_some() {
                    i = quoted.unwrap();
                } else if c == '(' || c == '[' || c == '{' {
                    nest += 1;
                } else if c == ')' || c == ']' || c == '}' {
                    if nest == 0 {
                        return None;
                    }
                    nest -= 1;
                } else if nest > 0 {
                } else if c == '<' {
                    depth += 1;
                } else if c == '>' && !self.arrow(i - 1, '-', '>') {
                    if depth <= 1 {
                        return Some(i);
                    }
                    depth -= 1;
                }
            }
            i += 1;
        }
        None
    }

    /// Reads a name at token `i`.
    pub fn ident_at(&self, i: usize) -> (r: Result<(String, usize), DeclarationError>)
        ensures
            yields_at(r, ident_at(self@, i as int)),
    {
        proof {
            use_type_invariant(self);
            lemma_lex_from_tokens(self.text@, 0);
        }
        if !self.word(i) {
            return Err(DeclarationError::Syntax { at: self.offset(i) });
        }
        let name = self.slice(self.tokens[i].start, self.tokens[i].end);
        if !identifier(name.as_str()) {
            return Err(DeclarationError::Identifier);
        }
        Ok((name, i + 1))
    }

    /// Reads the parameter list that opens at token `i`.
    pub fn parameters_at(&self, i: usize) -> (r: Result<(String, usize), DeclarationError>)
        ensures
            yields_at(r, parameters_at(self@, i as int)),
    {
        proof {
            use_type_invariant(self);
            lemma_lex_from_tokens(self.text@, 0);
            lemma_scan_close_bounds(self.text@, i + 1, 1, 0);
        }
        match self.closing_angle(i) {
            None => Err(DeclarationError::Parameters),
            Some(close) => {
                let from = self.tokens[i].start;
                let to = self.tokens[close].end;
                if to - from > MAX_PARAMETERS {
                    return Err(DeclarationError::Parameters);
                }
                if !self.unbarred(from, to) {
                    return Err(DeclarationError::Parameters);
                }
                let span = self.slice(from, to);
                match render_parameters(span.as_str()) {
                    None => Err(DeclarationError::Parameters),
                    Some(rendering) => Ok((rendering, close + 1)),
                }
            },
        }
    }

    /// Reads the optional parameter list behind a name.
    pub fn generics_at(&self, i: usize, message: bool) -> (r: Result<
        (Option<String>, usize),
        DeclarationError,
    >)
        ensures
            match r {
                Ok((generics, next)) => generics_at(self@, i as int, message) == Ok::<
                    (Option<Seq<char>>, int),
                    DeclarationError,
                >((crate::ident::option_text(generics), next as int)),
                Err(e) => generics_at(self@, i as int, message) == Err::<
                    (Option<Seq<char>>, int),
                    DeclarationError,
                >(e),
            },
    {
        proof {
            use_type_invariant(self);
        }
        if self.mark(i, '<') && !(message && self.mark(i + 1, '-')) {
            match self.parameters_at(i) {
                Err(e) => Err(e),
                Ok((rendering, next)) => Ok((Some(rendering), next)),
            }
        } else {
            Ok((None, i))
        }
    }

    /// Reads a state at token `i`.
    pub fn state_at(&self, i: usize) -> (r: Result<(State, usize), DeclarationError>)
        ensures
            yields_at(r, state_at(self@, i as int)),
    {
        match self.ident_at(i) {
            Err(e) => Err(e),
            Ok((name, j)) => match self.generics_at(j, false) {
                Err(e) => Err(e),
                Ok((generics, k)) => match State::new(name.as_str(), generics) {
                    Err(e) => Err(e),
                    Ok(state) => Ok((state, k)),
                },
            },
        }
    }
}

} // verus!
