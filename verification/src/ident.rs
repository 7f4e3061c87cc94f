//! Variant identifiers.
//!
//! Every state of a machine is one branch of the machine's tagged union,
//! and the branch needs a flat name. The name is made from the state's own
//! name and its parameter list: the list is stripped of punctuation, put in
//! Pascal case, and set between the name and the word `State`.

use crate::casing::cases;
use crate::casing::cases_safely;
use crate::error::DeclarationError;
use crate::error::yields;
use crate::lexer::plain;
use crate::lexer::words_only;
use crate::outside::accepts_identifier;
use crate::outside::identifier_accepted;
use crate::outside::pascal_cased;
use crate::outside::push_char;
use crate::outside::to_pascal_case;
use vstd::prelude::*;


verus! {

/// Whether `text` is a legal identifier: it is made of word characters
/// only and is taken as an identifier.
pub open spec fn is_identifier(text: Seq<char>) -> bool {
    words_only(text) && identifier_accepted(text)
}

/// Whether `text` is a legal identifier.
pub fn identifier(text: &str) -> (b: bool)
    ensures
        b == is_identifier(text@),
{
    plain(text) && accepts_identifier(text)
}

/// Whether `c` is dropped from a parameter list before it is cased.
pub open spec fn is_stripped(c: char) -> bool {
    ||| c == '\''
    ||| c == '<'
    ||| c == '>'
    ||| c == '&'
    ||| c == ' '
    ||| c == ','
    ||| c == ']'
    ||| c == '['
}

/// `text` without the characters that are stripped.
pub open spec fn stripped(text: Seq<char>) -> Seq<char> {
    text.filter(|c: char| !is_stripped(c))
}

/// The word that ends every variant identifier.
pub open spec fn state_suffix() -> Seq<char> {
    "State"@
}

/// The word that ends the name of a machine's tagged union.
pub open spec fn states_suffix() -> Seq<char> {
    "States"@
}

/// The variant identifier made of a state's name and its cased parameters.
pub open spec fn composed(name: Seq<char>, cased: Seq<char>) -> Seq<char> {
    name + cased + state_suffix()
}

/// What a parameter list contributes to a variant identifier: nothing
/// where there is no list, else the stripped list in Pascal case. A list
/// that cannot be put in Pascal case is refused.
pub open spec fn cased_parameters(generics: Option<Seq<char>>) -> Result<
    Seq<char>,
    DeclarationError,
> {
    match generics {
        None => Ok(Seq::empty()),
        Some(rendering) => if cases_safely(stripped(rendering)) {
            Ok(pascal_cased(stripped(rendering)))
        } else {
            Err(DeclarationError::Parameters)
        },
    }
}

/// The variant identifier of the state `name` with the parameter list
/// `generics`, or the reason why it has none.
pub open spec fn variant_id(name: Seq<char>, generics: Option<Seq<char>>) -> Result<
    Seq<char>,
    DeclarationError,
> {
    match cased_parameters(generics) {
        Err(e) => Err(e),
        Ok(cased) => if is_identifier(composed(name, cased)) {
            Ok(composed(name, cased))
        } else {
            Err(DeclarationError::Identifier)
        },
    }
}

/// The name of the tagged union of the machine `name`.
pub open spec fn union_name(name: Seq<char>) -> Seq<char> {
    name + states_suffix()
}

/// Whether `c` is dropped from a parameter list.
pub fn strips(c: char) -> (b: bool)
    ensures
        b == is_stripped(c),
{
    c == '\'' || c == '<' || c == '>' || c == '&' || c == ' ' || c == ',' || c == ']' || c
        == '['
}

/// Drops the punctuation of a parameter list: quotes, angle and square
/// brackets, ampersands, commas and blanks.
pub fn strip_parameters(rendering: &str) -> (kept: String)
    ensures
        kept@ == stripped(rendering@),
{
    broadcast use vstd::string::group_string_axioms;

    let ghost keep = |c: char| !is_stripped(c);
    let mut kept = String::new();
    proof {
        reveal(Seq::filter);
        assert(rendering@.take(0).filter(keep) == Seq::<char>::empty());
    }
    for c in it: rendering.chars()
        invariant
            it.seq() == rendering@,
            keep == |c: char| !is_stripped(c),
            kept@ == rendering@.take(it.index() as int).filter(keep),
    {
        proof {
            let before = rendering@.take(it.index() as int);
            let now = rendering@.take(it.index() + 1);
            assert(now.drop_last() == before);
            assert(now.last() == c);
            reveal(Seq::filter);
        }
        if !strips(c) {
            push_char(&mut kept, c);
        }
    }
    assert(rendering@.take(rendering@.len() as int) == rendering@);
    kept
}

/// Sets the cased parameters between a state's name and the word `State`.
pub fn compose_variant(name: &str, cased: &str) -> (id: String)
    ensures
        id@ == composed(name@, cased@),
{
    let mut id = String::from_str(name);
    id.append(cased);
    id.append("State");
    id
}

/// What a parameter list contributes to a variant identifier.
pub fn case_parameters(generics: &Option<String>) -> (cased: Result<String, DeclarationError>)
    ensures
        yields(cased, cased_parameters(option_text(*generics))),
{
    match generics {
        None => Ok(String::new()),
        Some(rendering) => {
            let kept = strip_parameters(rendering.as_str());
            if cases(kept.as_str()) {
                Ok(to_pascal_case(kept.as_str()))
            } else {
                Err(DeclarationError::Parameters)
            }
        },
    }
}

/// Checks a composed variant identifier: it is handed on where it is a
/// legal identifier, and refused where it is not.
pub fn check_variant(id: String, legal: bool) -> (checked: Result<String, DeclarationError>)
    ensures
        legal ==> checked == Ok::<String, DeclarationError>(id),
        !legal ==> checked == Err::<String, DeclarationError>(DeclarationError::Identifier),
{
    if legal {
        Ok(id)
    } else {
        Err(DeclarationError::Identifier)
    }
}

/// The text that an optional string stands for.
pub open spec fn option_text(text: Option<String>) -> Option<Seq<char>> {
    match text {
        Some(t) => Some(t@),
        None => None,
    }
}

/// Two calls on the same name and parameter list give the same variant
/// identifier, or fail alike.
pub proof fn lemma_variant_id_deterministic(
    name_a: Seq<char>,
    generics_a: Option<Seq<char>>,
    name_b: Seq<char>,
    generics_b: Option<Seq<char>>,
)
    requires
        name_a == name_b,
        generics_a == generics_b,
    ensures
        variant_id(name_a, generics_a) == variant_id(name_b, generics_b),
{
}

} // verus!
