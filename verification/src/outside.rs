//! The calls that leave this crate.
//!
//! Three questions are answered by other crates: whether a word is an
//! identifier, how a parameter list reads once it has been parsed and
//! printed again, and how a text reads in Pascal case. Two are answered by
//! `std` without a contract that Verus knows: whether a character is a
//! lowercase or an uppercase letter. Each answer depends
//! on the text alone, so each has a name that contracts can speak of. Verus
//! takes the contracts in this module on trust.
//!
//! The answers depend on the text alone because `proc-macro2` is built
//! without its `proc-macro` feature here. With that feature, and inside a
//! macro, the compiler would lex and print in its place. A build that turns
//! the feature on must not run this crate inside a macro.

use convert_case::Case;
use convert_case::Casing;
use crate::casing::cases_safely;
use crate::lexer::words_only;
use quote::ToTokens;
use vstd::prelude::*;


verus! {

/// The longest parameter list, in characters, that is handed on to be
/// parsed. Parsing descends once for every bracket, and also for every `&`,
/// `*` and `->` of a type, so only the length of the list bounds its depth.
/// A list of some 130 nested references overflows a stack of two megabytes;
/// the bound keeps half of that away.
pub const MAX_PARAMETERS: usize = 64;

/// Whether `c` keeps a parameter list from being parsed: a double quote,
/// which every string literal holds, a backslash, which every escape in a
/// character literal holds, or a slash, which every comment holds, also the
/// one that stands for a failed expansion and is lexed as a literal.
pub open spec fn is_barred(c: char) -> bool {
    c == '"' || c == '\\' || c == '/'
}

/// Whether `text` holds no character that keeps it from being parsed.
pub open spec fn unbarred(text: Seq<char>) -> bool {
    forall|i: int| 0 <= i < text.len() ==> !is_barred(#[trigger] text[i])
}

/// Whether `syn` parses `text` as one identifier and nothing else. Keywords
/// and the lone underscore are no identifiers. Blanks and comments around
/// an identifier are passed over, so this alone does not make a text an
/// identifier.
pub uninterp spec fn identifier_accepted(text: Seq<char>) -> bool;

/// What `syn` makes of `text` as a parameter list in angle brackets: `None`
/// where it does not parse as one, else the tokens of the parsed list printed
/// again.
pub uninterp spec fn rendered_parameters(text: Seq<char>) -> Option<Seq<char>>;

/// `text` in Pascal case, as `convert_case` writes it.
pub uninterp spec fn pascal_cased(text: Seq<char>) -> Seq<char>;

/// Whether `c` is a lowercase letter, as `char::is_lowercase` tells by the
/// Unicode property Lowercase.
pub uninterp spec fn lowercase(c: char) -> bool;

/// Whether `c` is an uppercase letter, as `char::is_uppercase` tells by the
/// Unicode property Uppercase.
pub uninterp spec fn uppercase(c: char) -> bool;

/// Calls `char::is_lowercase`.
#[verifier::external_body]
pub(crate) fn is_lowercase(c: char) -> (b: bool)
    ensures
        b == lowercase(c),
{
    c.is_lowercase()
}

/// Calls `char::is_uppercase`.
#[verifier::external_body]
pub(crate) fn is_uppercase(c: char) -> (b: bool)
    ensures
        b == uppercase(c),
{
    c.is_uppercase()
}

/// Calls `syn::parse_str` for a `syn::Ident`. The result says whether the
/// whole of `text` was taken as one identifier. The text is made of word
/// characters only, so it holds no brackets that parsing would descend
/// into.
#[verifier::external_body]
pub(crate) fn accepts_identifier(text: &str) -> (accepted: bool)
    requires
        words_only(text@),
    ensures
        accepted == identifier_accepted(text@),
{
    syn::parse_str::<syn::Ident>(text).is_ok()
}

/// Calls `syn::parse_str` for a `syn::AngleBracketedGenericArguments`,
/// turns the parsed list into a `proc_macro2::TokenStream` with `quote`'s
/// `into_token_stream`, and prints that. The result is `None` where `text`
/// is no such list. `syn` gives up on literals that it does not know, such
/// as C strings and the comment in round brackets that stands for a failed
/// expansion, and on some escapes, so a text with a double quote, a
/// backslash or a slash is not handed to it.
#[verifier::external_body]
pub(crate) fn render_parameters(text: &str) -> (rendering: Option<String>)
    requires
        text@.len() <= MAX_PARAMETERS,
        unbarred(text@),
    ensures
        match rendering {
            Some(r) => rendered_parameters(text@) == Some(r@),
            None => rendered_parameters(text@) is None,
        },
{
    match syn::parse_str::<syn::AngleBracketedGenericArguments>(text) {
        Ok(arguments) => {
            let tokens: proc_macro2::TokenStream = arguments.into_token_stream();
            Some(tokens.to_string())
        },
        Err(_) => None,
    }
}

/// Calls `convert_case`'s `to_case` with `Case::Pascal`. The crate cuts
/// each piece of the text at byte offsets that it counted in characters,
/// and fails where such an offset lies inside a character. Only a text of
/// which every cut falls between two characters is handed to it.
#[verifier::external_body]
pub(crate) fn to_pascal_case(text: &str) -> (cased: String)
    requires
        cases_safely(text@),
    ensures
        cased@ == pascal_cased(text@),
{
    text.to_case(Case::Pascal)
}

/// Calls `String::push`, which appends one character to the string.
#[verifier::external_body]
pub(crate) fn push_char(text: &mut String, c: char)
    ensures
        final(text)@ == old(text)@.push(c),
{
    text.push(c);
}

} // verus!
