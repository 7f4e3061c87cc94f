//! What can be wrong with a declaration.

use vstd::prelude::*;

verus! {

/// A fault in a declaration, found while it is parsed or validated. A
/// declaration with a fault yields nothing else.
#[derive(Clone, Copy, Debug, PartialEq, Eq, Structural)]
pub enum DeclarationError {
    /// Another token was expected at the character offset `at`; at the
    /// length of the text, the declaration ends too early.
    Syntax { at: usize },
    /// The message of a binding is followed by neither `->` nor `<-`, at the
    /// character offset `at`.
    Direction { at: usize },
    /// A parameter list is not closed, is too long, is not a list of
    /// parameters, or has characters outside ASCII left after stripping.
    Parameters,
    /// A name, or the variant identifier made from a state, is no legal
    /// identifier.
    Identifier,
    /// Two declared states have the same variant identifier.
    Collision,
    /// The initial state, a transition or a binding names a state that is
    /// not declared.
    UndeclaredState,
    /// Bindings are declared for a machine of another name.
    UnknownMachine,
}

impl DeclarationError {
    /// A sentence for the developer who wrote the declaration.
    pub fn message(&self) -> (text: &'static str)
        ensures
            text@ == self.message_spec(),
    {
        match self {
            DeclarationError::Syntax { .. } => "unexpected token or end of the declaration",
            DeclarationError::Direction { .. } =>
                "a direction must be specified with either '->' or '<-'",
            DeclarationError::Parameters => "malformed parameter list",
            DeclarationError::Identifier => "expected an identifier",
            DeclarationError::Collision => "two states share one variant identifier",
            DeclarationError::UndeclaredState => "a state is used that is not declared",
            DeclarationError::UnknownMachine => "the bindings name another machine",
        }
    }

    /// The sentence that `message` returns.
    pub open spec fn message_spec(&self) -> Seq<char> {
        match self {
            DeclarationError::Syntax { .. } => "unexpected token or end of the declaration"@,
            DeclarationError::Direction { .. } =>
                "a direction must be specified with either '->' or '<-'"@,
            DeclarationError::Parameters => "malformed parameter list"@,
            DeclarationError::Identifier => "expected an identifier"@,
            DeclarationError::Collision => "two states share one variant identifier"@,
            DeclarationError::UndeclaredState => "a state is used that is not declared"@,
            DeclarationError::UnknownMachine => "the bindings name another machine"@,
        }
    }
}

/// Whether `got` is the outcome `expected`: the same fault, or a value that
/// stands for the expected one.
pub open spec fn yields<T: View>(
    got: Result<T, DeclarationError>,
    expected: Result<T::V, DeclarationError>,
) -> bool {
    match got {
        Ok(value) => expected == Ok::<T::V, DeclarationError>(value@),
        Err(e) => expected == Err::<T::V, DeclarationError>(e),
    }
}

/// Whether `got` is the outcome `expected` of reading at a position: the
/// same fault, or a value that stands for the expected one and the same
/// position behind it.
pub open spec fn yields_at<T: View>(
    got: Result<(T, usize), DeclarationError>,
    expected: Result<(T::V, int), DeclarationError>,
) -> bool {
    match got {
        Ok((value, next)) => expected == Ok::<(T::V, int), DeclarationError>((value@, next as int)),
        Err(e) => expected == Err::<(T::V, int), DeclarationError>(e),
    }
}

} // verus!
