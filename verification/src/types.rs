//! The parts of a declaration.

use crate::error::DeclarationError;
use crate::error::yields;
use crate::ident::case_parameters;
use crate::ident::check_variant;
use crate::ident::compose_variant;
use crate::ident::identifier;
use crate::ident::is_identifier;
use crate::ident::option_text;
use crate::ident::variant_id;
use vstd::prelude::*;

verus! {

/// What a [`State`] stands for.
pub struct StateView {
    /// The state's own name.
    pub name: Seq<char>,
    /// Its parameter list as it was printed, if it has one.
    pub generics: Option<Seq<char>>,
    /// Its variant identifier.
    pub enum_name: Seq<char>,
}

/// The state that a name and a parameter list declare: its name is an
/// identifier, and its variant identifier is made of the two.
pub open spec fn state_view(name: Seq<char>, generics: Option<Seq<char>>) -> Result<
    StateView,
    DeclarationError,
> {
    if !is_identifier(name) {
        Err(DeclarationError::Identifier)
    } else {
        match variant_id(name, generics) {
            Ok(id) => Ok(StateView { name, generics, enum_name: id }),
            Err(e) => Err(e),
        }
    }
}

impl StateView {
    /// Whether the variant identifier is the one that belongs to the name
    /// and the parameter list.
    pub open spec fn wf(self) -> bool {
        state_view(self.name, self.generics) == Ok::<StateView, DeclarationError>(self)
    }

    /// Whether two states are the same state: their names and their
    /// parameter lists read alike.
    pub open spec fn same(self, other: StateView) -> bool {
        self.name == other.name && self.generics == other.generics
    }
}

/// The variant identifier is a function of the state: two well-formed
/// states with the same name and the same parameter list have the same
/// variant identifier.
pub proof fn lemma_same_state_same_variant(a: StateView, b: StateView)
    requires
        a.wf(),
        b.wf(),
        a.same(b),
    ensures
        a.enum_name == b.enum_name,
        a == b,
{
}

/// A state of a machine: a name, an optional parameter list, and the
/// variant identifier made of the two.
#[derive(Debug)]
pub struct State {
    name: String,
    generics: Option<String>,
    enum_name: String,
}

impl View for State {
    type V = StateView;

    closed spec fn view(&self) -> StateView {
        StateView {
            name: self.name@,
            generics: option_text(self.generics),
            enum_name: self.enum_name@,
        }
    }
}

/// Whether two optional texts read alike.
pub fn same_text(a: &Option<String>, b: &Option<String>) -> (same: bool)
    ensures
        same == (option_text(*a) == option_text(*b)),
{
    match (a, b) {
        (Some(x), Some(y)) => *x == *y,
        (None, None) => true,
        _ => false,
    }
}

/// A copy of an optional text.
pub fn copy_text(text: &Option<String>) -> (copy: Option<String>)
    ensures
        option_text(copy) == option_text(*text),
{
    match text {
        Some(t) => Some(t.clone()),
        None => None,
    }
}

impl State {
    /// The variant identifier belongs to the name and the parameter list.
    #[verifier::type_invariant]
    spec fn inv(self) -> bool {
        self@.wf()
    }

    /// The variant identifier of the state `name` with the parameter list
    /// `types`, as it was printed.
    pub fn state_to_enum(name: &str, types: &Option<String>) -> (id: Result<
        String,
        DeclarationError,
    >)
        ensures
            yields(id, variant_id(name@, option_text(*types))),
    {
        match case_parameters(types) {
            Err(e) => Err(e),
            Ok(cased) => {
                let id = compose_variant(name, cased.as_str());
                let legal = identifier(id.as_str());
                check_variant(id, legal)
            },
        }
    }

    /// The state with the given name and printed parameter list.
    pub fn new(name: &str, generics: Option<String>) -> (state: Result<State, DeclarationError>)
        ensures
            yields(state, state_view(name@, option_text(generics))),
    {
        if !identifier(name) {
            return Err(DeclarationError::Identifier);
        }
        match State::state_to_enum(name, &generics) {
            Err(e) => Err(e),
            Ok(enum_name) => Ok(State { name: String::from_str(name), generics, enum_name }),
        }
    }

    /// The state's own name.
    pub fn name(&self) -> (name: &str)
        ensures
            name@ == self@.name,
    {
        self.name.as_str()
    }

    /// The parameter list as it was printed, if the state has one.
    pub fn generics(&self) -> (generics: &Option<String>)
        ensures
            option_text(*generics) == self@.generics,
    {
        &self.generics
    }

    /// The variant identifier. It is the one that belongs to the name and
    /// the parameter list.
    pub fn enum_name(&self) -> (id: &str)
        ensures
            id@ == self@.enum_name,
            self@.wf(),
    {
        proof {
            use_type_invariant(self);
        }
        self.enum_name.as_str()
    }

    /// Whether this is the state `other`.
    pub fn same(&self, other: &State) -> (same: bool)
        ensures
            same == self@.same(other@),
    {
        self.name == other.name && same_text(&self.generics, &other.generics)
    }

    /// Whether this state has the variant identifier of `other`.
    pub fn same_variant(&self, other: &State) -> (same: bool)
        ensures
            same == (self@.enum_name == other@.enum_name),
    {
        self.enum_name == other.enum_name
    }

    /// Whether `id` is the variant identifier of this state.
    pub fn is_variant(&self, id: &String) -> (same: bool)
        ensures
            same == (self@.enum_name == id@),
    {
        self.enum_name == *id
    }

    /// A copy of the state.
    pub fn duplicate(&self) -> (copy: State)
        ensures
            copy@ == self@,
    {
        proof {
            use_type_invariant(self);
        }
        State {
            name: self.name.clone(),
            generics: copy_text(&self.generics),
            enum_name: self.enum_name.clone(),
        }
    }
}

/// What a sequence of states stands for.
pub open spec fn state_views(states: Seq<State>) -> Seq<StateView> {
    Seq::new(states.len(), |i: int| states[i]@)
}

/// What a [`Transition`] stands for.
pub struct TransitionView {
    pub src: StateView,
    pub dst: StateView,
}

/// A directed edge from one state to another.
#[derive(Debug)]
pub struct Transition {
    /// The state that is left.
    pub src: State,
    /// The state that is entered.
    pub dst: State,
}

impl View for Transition {
    type V = TransitionView;

    open spec fn view(&self) -> TransitionView {
        TransitionView { src: self.src@, dst: self.dst@ }
    }
}

/// What a sequence of transitions stands for.
pub open spec fn transition_views(transitions: Seq<Transition>) -> Seq<TransitionView> {
    Seq::new(transitions.len(), |i: int| transitions[i]@)
}

/// What a [`Message`] stands for.
pub struct MessageView {
    pub name: Seq<char>,
    pub generics: Option<Seq<char>>,
}

/// The name of a message type and its parameter list as it was printed.
#[derive(Debug)]
pub struct Message {
    pub name: String,
    pub generics: Option<String>,
}

impl View for Message {
    type V = MessageView;

    open spec fn view(&self) -> MessageView {
        MessageView { name: self.name@, generics: option_text(self.generics) }
    }
}

/// What a [`MessageDir`] stands for.
pub enum MessageDirView {
    Push(MessageView),
    Poll(MessageView),
}

/// A message and the way it travels.
#[derive(Debug)]
pub enum MessageDir {
    /// The state receives the message.
    Push(Message),
    /// The state returns the message.
    Poll(Message),
}

impl View for MessageDir {
    type V = MessageDirView;

    open spec fn view(&self) -> MessageDirView {
        match self {
            MessageDir::Push(m) => MessageDirView::Push(m@),
            MessageDir::Poll(m) => MessageDirView::Poll(m@),
        }
    }
}

/// What a [`StateMessage`] stands for.
pub struct StateMessageView {
    pub message: MessageDirView,
    pub state: StateView,
}

/// A binding: a message, its direction, and the state that exchanges it.
#[derive(Debug)]
pub struct StateMessage {
    pub message: MessageDir,
    pub state: State,
}

impl View for StateMessage {
    type V = StateMessageView;

    open spec fn view(&self) -> StateMessageView {
        StateMessageView { message: self.message@, state: self.state@ }
    }
}

/// What a sequence of bindings stands for.
pub open spec fn binding_views(bindings: Seq<StateMessage>) -> Seq<StateMessageView> {
    Seq::new(bindings.len(), |i: int| bindings[i]@)
}

/// What a [`Messages`] stands for.
pub struct MessagesView {
    pub name: Seq<char>,
    pub enum_name: Seq<char>,
    pub messages: Seq<StateMessageView>,
}

/// The bindings declared for one machine.
#[derive(Debug)]
pub struct Messages {
    /// The machine's name.
    pub name: String,
    /// The name of the machine's tagged union.
    pub enum_name: String,
    /// The bindings, in the order of the declaration.
    pub messages: Vec<StateMessage>,
}

impl View for Messages {
    type V = MessagesView;

    open spec fn view(&self) -> MessagesView {
        MessagesView {
            name: self.name@,
            enum_name: self.enum_name@,
            messages: binding_views(self.messages@),
        }
    }
}

/// What a [`StateEntry`] stands for.
pub struct StateEntryView {
    pub enum_name: Seq<char>,
    pub state_entry: Seq<char>,
}

/// One branch of a machine's tagged union, by name.
#[derive(Debug)]
pub struct StateEntry {
    /// The name of the tagged union.
    pub enum_name: String,
    /// The variant identifier of the state.
    pub state_entry: String,
}

impl View for StateEntry {
    type V = StateEntryView;

    open spec fn view(&self) -> StateEntryView {
        StateEntryView { enum_name: self.enum_name@, state_entry: self.state_entry@ }
    }
}

/// What a [`MatchStateEntry`] stands for.
pub struct MatchStateEntryView {
    pub state_entry: StateEntryView,
    pub var_name: Seq<char>,
}

/// A branch of a tagged union and the name under which its value is wanted.
#[derive(Debug)]
pub struct MatchStateEntry {
    pub state_entry: StateEntry,
    pub var_name: String,
}

impl View for MatchStateEntry {
    type V = MatchStateEntryView;

    open spec fn view(&self) -> MatchStateEntryView {
        MatchStateEntryView { state_entry: self.state_entry@, var_name: self.var_name@ }
    }
}

} // verus!
