//! The grammar of declarations.
//!
//! A machine is declared as `Name, Initial, [State, ..], [Src => Dst, ..]`
//! and its messages as `Name, [Message -> State, Message <- State, ..]`.
//! A list stands in square brackets, its items are separated by commas, and
//! a comma may follow the last one. The arrows `->` and `<-` of a binding
//! are written without a blank inside. A declaration takes the whole text:
//! a token that is left over is an error. A single state, transition,
//! message or binding is read from the beginning of a text, and what
//! follows it is left alone.

use crate::error::DeclarationError;
use crate::error::yields;
use crate::error::yields_at;
use crate::ident::union_name;
use crate::lexer::lex_spec;
use crate::machine::all_wf;
use crate::machine::declared;
use crate::machine::lemma_declared_position;
use crate::machine::lemma_validated_fits;
use crate::machine::Machine;
use crate::machine::MachineView;
use crate::machine::validated;
use crate::source::generics_at;
use crate::source::ident_at;
use crate::source::is_arrow;
use crate::source::is_mark;
use crate::source::lemma_state_at_advances;
use crate::source::lemma_state_at_reads;
use crate::source::offset;
use crate::source::Source;
use crate::source::state_at;
use crate::types::binding_views;
use crate::types::MatchStateEntry;
use crate::types::MatchStateEntryView;
use crate::types::Message;
use crate::types::MessageDir;
use crate::types::MessageDirView;
use crate::types::Messages;
use crate::types::MessagesView;
use crate::types::MessageView;
use crate::types::State;
use crate::types::state_views;
use crate::types::StateEntry;
use crate::types::StateEntryView;
use crate::types::StateMessage;
use crate::types::StateMessageView;
use crate::types::StateView;
use crate::types::Transition;
use crate::types::transition_views;
use crate::types::TransitionView;
use vstd::prelude::*;

verus! {

/// The position behind the mark `c`, which must stand at token `i`.
pub open spec fn expect(text: Seq<char>, i: int, c: char) -> Result<int, DeclarationError> {
    if is_mark(text, i, c) {
        Ok(i + 1)
    } else {
        Err(DeclarationError::Syntax { at: offset(text, i) })
    }
}

/// What was read, where nothing is left behind it.
pub open spec fn whole<T>(text: Seq<char>, read: Result<(T, int), DeclarationError>) -> Result<
    T,
    DeclarationError,
> {
    match read {
        Err(e) => Err(e),
        Ok((value, next)) => if next >= lex_spec(text).len() {
            Ok(value)
        } else {
            Err(DeclarationError::Syntax { at: offset(text, next) })
        },
    }
}

/// The transition read at token `i`: a state, the two marks of the arrow
/// `=>`, which may stand apart, and a state.
pub open spec fn transition_at(text: Seq<char>, i: int) -> Result<
    (TransitionView, int),
    DeclarationError,
> {
    match state_at(text, i) {
        Err(e) => Err(e),
        Ok((src, j)) => match expect(text, j, '=') {
            Err(e) => Err(e),
            Ok(k) => match expect(text, k, '>') {
                Err(e) => Err(e),
                Ok(l) => match state_at(text, l) {
                    Err(e) => Err(e),
                    Ok((dst, m)) => Ok((TransitionView { src, dst }, m)),
                },
            },
        },
    }
}

/// The message read at token `i`: a name and an optional parameter list.
pub open spec fn message_at(text: Seq<char>, i: int) -> Result<
    (MessageView, int),
    DeclarationError,
> {
    match ident_at(text, i) {
        Err(e) => Err(e),
        Ok((name, j)) => match generics_at(text, j, true) {
            Err(e) => Err(e),
            Ok((generics, k)) => Ok((MessageView { name, generics }, k)),
        },
    }
}

/// The binding read at token `i`: a message, the arrow `->` for a message
/// that is pushed into the state or `<-` for one that is polled from it,
/// and the state.
pub open spec fn binding_at(text: Seq<char>, i: int) -> Result<
    (StateMessageView, int),
    DeclarationError,
> {
    match message_at(text, i) {
        Err(e) => Err(e),
        Ok((message, j)) => if is_arrow(text, j, '-', '>') {
            match state_at(text, j + 2) {
                Err(e) => Err(e),
                Ok((state, k)) => Ok(
                    (StateMessageView { message: MessageDirView::Push(message), state }, k),
                ),
            }
        } else if is_arrow(text, j, '<', '-') {
            match state_at(text, j + 2) {
                Err(e) => Err(e),
                Ok((state, k)) => Ok(
                    (StateMessageView { message: MessageDirView::Poll(message), state }, k),
                ),
            }
        } else {
            Err(DeclarationError::Direction { at: offset(text, j) })
        },
    }
}

/// The rest of a list from token `i` on, behind the items `seen`: up to
/// and including the closing bracket. Each item is read by `item`, which
/// must move forward.
pub open spec fn list_at<T>(
    text: Seq<char>,
    i: int,
    item: spec_fn(Seq<char>, int) -> Result<(T, int), DeclarationError>,
    seen: Seq<T>,
) -> Result<(Seq<T>, int), DeclarationError>
    decreases lex_spec(text).len() - i,
{
    if is_mark(text, i, ']') {
        Ok((seen, i + 1))
    } else {
        match item(text, i) {
            Err(e) => Err(e),
            Ok((value, j)) => if is_mark(text, j, ']') {
                Ok((seen.push(value), j + 1))
            } else if !is_mark(text, j, ',') || j < i {
                Err(DeclarationError::Syntax { at: offset(text, j) })
            } else {
                list_at(text, j + 1, item, seen.push(value))
            },
        }
    }
}

/// The list read at token `i`, which must open it.
pub open spec fn group_at<T>(
    text: Seq<char>,
    i: int,
    item: spec_fn(Seq<char>, int) -> Result<(T, int), DeclarationError>,
) -> Result<(Seq<T>, int), DeclarationError> {
    match expect(text, i, '[') {
        Err(e) => Err(e),
        Ok(j) => list_at(text, j, item, Seq::empty()),
    }
}

/// How a state is read as an item of a list.
pub open spec fn state_item() -> spec_fn(Seq<char>, int) -> Result<
    (StateView, int),
    DeclarationError,
> {
    |text: Seq<char>, i: int| state_at(text, i)
}

/// How a transition is read as an item of a list.
pub open spec fn transition_item() -> spec_fn(Seq<char>, int) -> Result<
    (TransitionView, int),
    DeclarationError,
> {
    |text: Seq<char>, i: int| transition_at(text, i)
}

/// How a binding is read as an item of a list.
pub open spec fn binding_item() -> spec_fn(Seq<char>, int) -> Result<
    (StateMessageView, int),
    DeclarationError,
> {
    |text: Seq<char>, i: int| binding_at(text, i)
}

/// The parts of a machine's declaration, before they are validated.
pub struct MachineParts {
    /// The machine's name.
    pub name: Seq<char>,
    /// The state in which it starts.
    pub init: StateView,
    /// The states of the first list.
    pub states: Seq<StateView>,
    /// The transitions of the second list.
    pub transitions: Seq<TransitionView>,
}

/// The parts read from token `i` on: the name, the initial state, the list
/// of states and the list of transitions, with a comma between each two.
pub open spec fn machine_parts_at(text: Seq<char>, i: int) -> Result<
    (MachineParts, int),
    DeclarationError,
> {
    match ident_at(text, i) {
        Err(e) => Err(e),
        Ok((name, a)) => match expect(text, a, ',') {
            Err(e) => Err(e),
            Ok(b) => match state_at(text, b) {
                Err(e) => Err(e),
                Ok((init, c)) => match expect(text, c, ',') {
                    Err(e) => Err(e),
                    Ok(d) => match group_at(text, d, state_item()) {
                        Err(e) => Err(e),
                        Ok((states, f)) => match expect(text, f, ',') {
                            Err(e) => Err(e),
                            Ok(g) => match group_at(text, g, transition_item()) {
                                Err(e) => Err(e),
                                Ok((transitions, h)) => Ok(
                                    (MachineParts { name, init, states, transitions }, h),
                                ),
                            },
                        },
                    },
                },
            },
        },
    }
}

/// The machine that a text declares: its parts, validated.
pub open spec fn parsed_machine(text: Seq<char>) -> Result<MachineView, DeclarationError> {
    match whole(text, machine_parts_at(text, 0)) {
        Err(e) => Err(e),
        Ok(parts) => validated(parts.name, parts.init, parts.states, parts.transitions),
    }
}

/// The bindings read from token `i` on: the machine's name, a comma, and
/// the list of bindings.
pub open spec fn messages_at(text: Seq<char>, i: int) -> Result<
    (MessagesView, int),
    DeclarationError,
> {
    match ident_at(text, i) {
        Err(e) => Err(e),
        Ok((name, a)) => match expect(text, a, ',') {
            Err(e) => Err(e),
            Ok(b) => match group_at(text, b, binding_item()) {
                Err(e) => Err(e),
                Ok((messages, c)) => Ok(
                    (MessagesView { name, enum_name: union_name(name), messages }, c),
                ),
            },
        },
    }
}

/// The branch read from token `i` on: the machine's name, a comma, and a
/// state.
pub open spec fn state_entry_at(text: Seq<char>, i: int) -> Result<
    (StateEntryView, int),
    DeclarationError,
> {
    match ident_at(text, i) {
        Err(e) => Err(e),
        Ok((name, a)) => match expect(text, a, ',') {
            Err(e) => Err(e),
            Ok(b) => match state_at(text, b) {
                Err(e) => Err(e),
                Ok((state, c)) => Ok(
                    (
                        StateEntryView {
                            enum_name: union_name(name),
                            state_entry: state.enum_name,
                        },
                        c,
                    ),
                ),
            },
        },
    }
}

/// The branch and the variable read from token `i` on: a branch, a comma,
/// and a name.
pub open spec fn match_state_entry_at(text: Seq<char>, i: int) -> Result<
    (MatchStateEntryView, int),
    DeclarationError,
> {
    match state_entry_at(text, i) {
        Err(e) => Err(e),
        Ok((state_entry, a)) => match expect(text, a, ',') {
            Err(e) => Err(e),
            Ok(b) => match ident_at(text, b) {
                Err(e) => Err(e),
                Ok((var_name, c)) => Ok((MatchStateEntryView { state_entry, var_name }, c)),
            },
        },
    }
}

/// A transition or a binding that is read ends behind the place where it
/// began, within the tokens.
pub proof fn lemma_items_advance(text: Seq<char>, i: int)
    requires
        0 <= i,
    ensures
        transition_at(text, i) matches Ok((_, j)) ==> i < j <= lex_spec(text).len(),
        message_at(text, i) matches Ok((_, j)) ==> i < j <= lex_spec(text).len(),
        binding_at(text, i) matches Ok((_, j)) ==> i < j <= lex_spec(text).len(),
{
    lemma_state_at_advances(text, i);
    lemma_state_at_advances(text, i + 1);
    match state_at(text, i) {
        Ok((_, j)) => {
            lemma_state_at_advances(text, j + 2);
        },
        Err(_) => {},
    }
    match message_at(text, i) {
        Ok((_, j)) => {
            lemma_state_at_advances(text, j + 2);
        },
        Err(_) => {},
    }
}

/// A transition is read as a state, the marks `=` and `>`, and a state.
pub proof fn lemma_transition_needs_arrow(text: Seq<char>, i: int)
    ensures
        transition_at(text, i) matches Ok((transition, next)) ==> {
            &&& state_at(text, i) matches Ok((src, j))
            &&& src == transition.src
            &&& is_mark(text, j, '=')
            &&& is_mark(text, j + 1, '>')
            &&& state_at(text, j + 2) == Ok::<(StateView, int), DeclarationError>(
                (transition.dst, next),
            )
        },
{
}

/// Behind the name of a message, a `<` that is followed by `-` opens no
/// parameter list: the message ends with its name, and the two marks are
/// left for the arrow `<-`.
pub proof fn lemma_arrow_opens_no_list(text: Seq<char>, i: int)
    requires
        is_mark(text, i + 1, '<'),
        is_mark(text, i + 2, '-'),
    ensures
        message_at(text, i) matches Ok((message, next)) ==> message.generics is None && next == i
            + 1,
{
}

/// A binding is pushed where the arrow `->` follows its message and polled
/// where `<-` follows it. Both arrows are written without a blank inside.
pub proof fn lemma_binding_direction(text: Seq<char>, i: int)
    ensures
        binding_at(text, i) matches Ok((binding, _)) ==> {
            &&& message_at(text, i) matches Ok((message, j))
            &&& match binding.message {
                MessageDirView::Push(pushed) => pushed == message && is_arrow(text, j, '-', '>'),
                MessageDirView::Poll(polled) => polled == message && is_arrow(text, j, '<', '-'),
            }
        },
{
}

/// The states of a list that is read are well formed, if those seen
/// before are.
pub proof fn lemma_state_list_wf(text: Seq<char>, i: int, seen: Seq<StateView>)
    requires
        0 <= i,
        all_wf(seen),
    ensures
        list_at(text, i, state_item(), seen) matches Ok((states, _)) ==> all_wf(states),
    decreases lex_spec(text).len() - i,
{
    if !is_mark(text, i, ']') {
        lemma_state_at_reads(text, i);
        match state_at(text, i) {
            Err(_) => {},
            Ok((state, j)) => {
                if !is_mark(text, j, ']') && is_mark(text, j, ',') && j >= i {
                    lemma_state_list_wf(text, j + 1, seen.push(state));
                }
            },
        }
    }
}

/// A machine that a text declares is a valid graph: its states are well
/// formed and no two share a variant identifier, and its initial state and
/// both ends of each of its transitions are among its states.
pub proof fn lemma_parsed_machine_fits(text: Seq<char>)
    ensures
        parsed_machine(text) matches Ok(machine) ==> machine.wf(),
{
    match whole(text, machine_parts_at(text, 0)) {
        Err(_) => {},
        Ok(parts) => {
            lemma_state_at_advances(text, 0);
            let a = ident_at(text, 0).unwrap().1;
            let b = expect(text, a, ',').unwrap();
            lemma_state_at_advances(text, b);
            let c = state_at(text, b).unwrap().1;
            let d = expect(text, c, ',').unwrap();
            let e = expect(text, d, '[').unwrap();
            lemma_state_list_wf(text, e, Seq::empty());
            lemma_validated_fits(parts.name, parts.init, parts.states, parts.transitions);
        },
    }
}

/// Reads the mark `c` at token `i`.
pub fn read_mark(source: &Source, i: usize, c: char) -> (r: Result<usize, DeclarationError>)
    ensures
        match r {
            Ok(next) => expect(source@, i as int, c) == Ok::<int, DeclarationError>(next as int),
            Err(e) => expect(source@, i as int, c) == Err::<int, DeclarationError>(e),
        },
{
    let _ = source.len();
    if source.mark(i, c) {
        Ok(i + 1)
    } else {
        Err(DeclarationError::Syntax { at: source.offset(i) })
    }
}

/// Sees that nothing stands at token `next` or behind it.
pub fn read_end(source: &Source, next: usize) -> (r: Result<(), DeclarationError>)
    ensures
        match r {
            Ok(_) => next >= lex_spec(source@).len(),
            Err(e) => next < lex_spec(source@).len() && e == (DeclarationError::Syntax {
                at: offset(source@, next as int),
            }),
        },
{
    if next >= source.len() {
        Ok(())
    } else {
        Err(DeclarationError::Syntax { at: source.offset(next) })
    }
}

/// Reads a transition at token `i`.
pub fn read_transition(source: &Source, i: usize) -> (r: Result<
    (Transition, usize),
    DeclarationError,
>)
    ensures
        yields_at(r, transition_at(source@, i as int)),
{
    let (src, j) = match source.state_at(i) {
        Err(e) => {
            return Err(e);
        },
        Ok(read) => read,
    };
    let k = match read_mark(source, j, '=') {
        Err(e) => {
            return Err(e);
        },
        Ok(next) => next,
    };
    let l = match read_mark(source, k, '>') {
        Err(e) => {
            return Err(e);
        },
        Ok(next) => next,
    };
    match source.state_at(l) {
        Err(e) => Err(e),
        Ok((dst, m)) => Ok((Transition { src, dst }, m)),
    }
}

/// Reads a message at token `i`.
pub fn read_message(source: &Source, i: usize) -> (r: Result<(Message, usize), DeclarationError>)
    ensures
        yields_at(r, message_at(source@, i as int)),
{
    match source.ident_at(i) {
        Err(e) => Err(e),
        Ok((name, j)) => match source.generics_at(j, true) {
            Err(e) => Err(e),
            Ok((generics, k)) => Ok((Message { name, generics }, k)),
        },
    }
}

/// Reads a binding at token `i`.
pub fn read_binding(source: &Source, i: usize) -> (r: Result<
    (StateMessage, usize),
    DeclarationError,
>)
    ensures
        yields_at(r, binding_at(source@, i as int)),
{
    let _ = source.len();
    let (message, j) = match read_message(source, i) {
        Err(e) => {
            return Err(e);
        },
        Ok(read) => read,
    };
    if source.arrow(j, '-', '>') {
        match source.state_at(j + 2) {
            Err(e) => Err(e),
            Ok((state, k)) => Ok((StateMessage { message: MessageDir::Push(message), state }, k)),
        }
    } else if source.arrow(j, '<', '-') {
        match source.state_at(j + 2) {
            Err(e) => Err(e),
            Ok((state, k)) => Ok((StateMessage { message: MessageDir::Poll(message), state }, k)),
        }
    } else {
        Err(DeclarationError::Direction { at: source.offset(j) })
    }
}

/// Reads a list of states at token `i`, which must open it.
pub fn read_states(source: &Source, i: usize) -> (r: Result<(Vec<State>, usize), DeclarationError>)
    ensures
        match r {
            Ok((states, next)) => group_at(source@, i as int, state_item()) == Ok::<
                (Seq<StateView>, int),
                DeclarationError,
            >((state_views(states@), next as int)),
            Err(e) => group_at(source@, i as int, state_item()) == Err::<
                (Seq<StateView>, int),
                DeclarationError,
            >(e),
        },
{
    let n = source.len();
    let mut j = match read_mark(source, i, '[') {
        Err(e) => {
            return Err(e);
        },
        Ok(next) => next,
    };
    let mut states: Vec<State> = Vec::new();
    assert(state_views(states@) == Seq::<StateView>::empty());
    loop
        invariant
            n == lex_spec(source@).len(),
            j <= n,
            group_at(source@, i as int, state_item()) == list_at(
                source@,
                j as int,
                state_item(),
                state_views(states@),
            ),
        decreases n - j,
    {
        if source.mark(j, ']') {
            return Ok((states, j + 1));
        }
        proof {
            lemma_state_at_advances(source@, j as int);
        }
        let (state, k) = match source.state_at(j) {
            Err(e) => {
                return Err(e);
            },
            Ok(read) => read,
        };
        let ghost before = state_views(states@);
        states.push(state);
        assert(state_views(states@) == before.push(state@));
        if source.mark(k, ']') {
            return Ok((states, k + 1));
        }
        if !source.mark(k, ',') {
            return Err(DeclarationError::Syntax { at: source.offset(k) });
        }
        j = k + 1;
    }
}

/// Reads a list of transitions at token `i`, which must open it.
pub fn read_transitions(source: &Source, i: usize) -> (r: Result<
    (Vec<Transition>, usize),
    DeclarationError,
>)
    ensures
        match r {
            Ok((transitions, next)) => group_at(source@, i as int, transition_item()) == Ok::<
                (Seq<TransitionView>, int),
                DeclarationError,
            >((transition_views(transitions@), next as int)),
            Err(e) => group_at(source@, i as int, transition_item()) == Err::<
                (Seq<TransitionView>, int),
                DeclarationError,
            >(e),
        },
{
    let n = source.len();
    let mut j = match read_mark(source, i, '[') {
        Err(e) => {
            return Err(e);
        },
        Ok(next) => next,
    };
    let mut transitions: Vec<Transition> = Vec::new();
    assert(transition_views(transitions@) == Seq::<TransitionView>::empty());
    loop
        invariant
            n == lex_spec(source@).len(),
            j <= n,
            group_at(source@, i as int, transition_item()) == list_at(
                source@,
                j as int,
                transition_item(),
                transition_views(transitions@),
            ),
        decreases n - j,
    {
        if source.mark(j, ']') {
            return Ok((transitions, j + 1));
        }
        proof {
            lemma_items_advance(source@, j as int);
        }
        let (transition, k) = match read_transition(source, j) {
            Err(e) => {
                return Err(e);
            },
            Ok(read) => read,
        };
        let ghost before = transition_views(transitions@);
        transitions.push(transition);
        assert(transition_views(transitions@) == before.push(transition@));
        if source.mark(k, ']') {
            return Ok((transitions, k + 1));
        }
        if !source.mark(k, ',') {
            return Err(DeclarationError::Syntax { at: source.offset(k) });
        }
        j = k + 1;
    }
}

/// Reads a list of bindings at token `i`, which must open it.
pub fn read_bindings(source: &Source, i: usize) -> (r: Result<
    (Vec<StateMessage>, usize),
    DeclarationError,
>)
    ensures
        match r {
            Ok((bindings, next)) => group_at(source@, i as int, binding_item()) == Ok::<
                (Seq<StateMessageView>, int),
                DeclarationError,
            >((binding_views(bindings@), next as int)),
            Err(e) => group_at(source@, i as int, binding_item()) == Err::<
                (Seq<StateMessageView>, int),
                DeclarationError,
            >(e),
        },
{
    let n = source.len();
    let mut j = match read_mark(source, i, '[') {
        Err(e) => {
            return Err(e);
        },
        Ok(next) => next,
    };
    let mut bindings: Vec<StateMessage> = Vec::new();
    assert(binding_views(bindings@) == Seq::<StateMessageView>::empty());
    loop
        invariant
            n == lex_spec(source@).len(),
            j <= n,
            group_at(source@, i as int, binding_item()) == list_at(
                source@,
                j as int,
                binding_item(),
                binding_views(bindings@),
            ),
        decreases n - j,
    {
        if source.mark(j, ']') {
            return Ok((bindings, j + 1));
        }
        proof {
            lemma_items_advance(source@, j as int);
        }
        let (binding, k) = match read_binding(source, j) {
            Err(e) => {
                return Err(e);
            },
            Ok(read) => read,
        };
        let ghost before = binding_views(bindings@);
        bindings.push(binding);
        assert(binding_views(bindings@) == before.push(binding@));
        if source.mark(k, ']') {
            return Ok((bindings, k + 1));
        }
        if !source.mark(k, ',') {
            return Err(DeclarationError::Syntax { at: source.offset(k) });
        }
        j = k + 1;
    }
}

/// Hands on what was read where nothing is left behind it.
pub fn read_whole<T>(source: &Source, value: T, next: usize) -> (r: Result<T, DeclarationError>)
    ensures
        r == whole(source@, Ok::<(T, int), DeclarationError>((value, next as int))),
{
    match read_end(source, next) {
        Err(e) => Err(e),
        Ok(_) => Ok(value),
    }
}

impl State {
    /// Reads a state from the beginning of `input`: a name and an optional
    /// parameter list, as in `Foo` or `Bar<T>`. What follows the state is
    /// left alone: the number beside the state says how many tokens of the
    /// input belong to it.
    pub fn parse(input: &str) -> (r: Result<(State, usize), DeclarationError>)
        ensures
            yields_at(r, state_at(input@, 0)),
    {
        Source::new(input).state_at(0)
    }
}

impl Transition {
    /// Reads a transition from the beginning of `input`, as in `Foo => Bar`
    /// or `Foo<T> => Bar<T>`. What follows it is left alone: the number
    /// beside the transition says how many tokens of the input belong to it.
    pub fn parse(input: &str) -> (r: Result<(Transition, usize), DeclarationError>)
        ensures
            yields_at(r, transition_at(input@, 0)),
    {
        read_transition(&Source::new(input), 0)
    }
}

impl Message {
    /// Reads a message from the beginning of `input`: a name and an
    /// optional parameter list. What follows it is left alone, an arrow
    /// `<-` too: the number beside the message says how many tokens of the
    /// input belong to it.
    pub fn parse(input: &str) -> (r: Result<(Message, usize), DeclarationError>)
        ensures
            yields_at(r, message_at(input@, 0)),
    {
        read_message(&Source::new(input), 0)
    }
}

impl StateMessage {
    /// Reads a binding from the beginning of `input`, as in
    /// `Command -> Load` or `Status <- Load`. What follows it is left alone:
    /// the number beside the binding says how many tokens of the input
    /// belong to it.
    pub fn parse(input: &str) -> (r: Result<(StateMessage, usize), DeclarationError>)
        ensures
            yields_at(r, binding_at(input@, 0)),
    {
        read_binding(&Source::new(input), 0)
    }
}

/// Reads the bindings of a machine from token `i` on.
pub fn read_messages(source: &Source, i: usize) -> (r: Result<(Messages, usize), DeclarationError>)
    ensures
        yields_at(r, messages_at(source@, i as int)),
{
    let (name, a) = match source.ident_at(i) {
        Err(e) => {
            return Err(e);
        },
        Ok(read) => read,
    };
    let b = match read_mark(source, a, ',') {
        Err(e) => {
            return Err(e);
        },
        Ok(next) => next,
    };
    match read_bindings(source, b) {
        Err(e) => Err(e),
        Ok((messages, c)) => {
            let enum_name = Machine::enum_name(name.as_str());
            Ok((Messages { name, enum_name, messages }, c))
        },
    }
}

impl Messages {
    /// Reads the bindings of a machine, as in
    /// `Name, [Command -> Load, Status <- Load]`.
    pub fn parse(input: &str) -> (r: Result<Messages, DeclarationError>)
        ensures
            yields(r, whole(input@, messages_at(input@, 0))),
    {
        let source = Source::new(input);
        match read_messages(&source, 0) {
            Err(e) => Err(e),
            Ok((messages, next)) => read_whole(&source, messages, next),
        }
    }
}

/// Reads a branch of a tagged union from token `i` on.
pub fn read_state_entry(source: &Source, i: usize) -> (r: Result<
    (StateEntry, usize),
    DeclarationError,
>)
    ensures
        yields_at(r, state_entry_at(source@, i as int)),
{
    let (name, a) = match source.ident_at(i) {
        Err(e) => {
            return Err(e);
        },
        Ok(read) => read,
    };
    let b = match read_mark(source, a, ',') {
        Err(e) => {
            return Err(e);
        },
        Ok(next) => next,
    };
    match source.state_at(b) {
        Err(e) => Err(e),
        Ok((state, c)) => {
            let enum_name = Machine::enum_name(name.as_str());
            let state_entry = String::from_str(state.enum_name());
            Ok((StateEntry { enum_name, state_entry }, c))
        },
    }
}

impl StateEntry {
    /// Reads a branch of a tagged union: the machine's name and a state, as
    /// in `Elevator, Move<Up>`.
    pub fn parse(input: &str) -> (r: Result<StateEntry, DeclarationError>)
        ensures
            yields(r, whole(input@, state_entry_at(input@, 0))),
    {
        let source = Source::new(input);
        match read_state_entry(&source, 0) {
            Err(e) => Err(e),
            Ok((entry, next)) => read_whole(&source, entry, next),
        }
    }
}

impl MatchStateEntry {
    /// Reads a branch of a tagged union and the name under which its value
    /// is wanted, as in `Elevator, Move<Up>, state`.
    pub fn parse(input: &str) -> (r: Result<MatchStateEntry, DeclarationError>)
        ensures
            yields(r, whole(input@, match_state_entry_at(input@, 0))),
    {
        let source = Source::new(input);
        let (state_entry, a) = match read_state_entry(&source, 0) {
            Err(e) => {
                return Err(e);
            },
            Ok(read) => read,
        };
        let b = match read_mark(&source, a, ',') {
            Err(e) => {
                return Err(e);
            },
            Ok(next) => next,
        };
        match source.ident_at(b) {
            Err(e) => Err(e),
            Ok((var_name, c)) => read_whole(&source, MatchStateEntry { state_entry, var_name }, c),
        }
    }
}

impl Machine {
    /// Reads and validates the declaration of a machine, as in
    /// `Name, Foo, [Foo, Bar], [Foo => Bar]`.
    pub fn parse(input: &str) -> (r: Result<Machine, DeclarationError>)
        ensures
            yields(r, parsed_machine(input@)),
    {
        let source = Source::new(input);
        let (name, a) = match source.ident_at(0) {
            Err(e) => {
                return Err(e);
            },
            Ok(read) => read,
        };
        let b = match read_mark(&source, a, ',') {
            Err(e) => {
                return Err(e);
            },
            Ok(next) => next,
        };
        let (init, c) = match source.state_at(b) {
            Err(e) => {
                return Err(e);
            },
            Ok(read) => read,
        };
        let d = match read_mark(&source, c, ',') {
            Err(e) => {
                return Err(e);
            },
            Ok(next) => next,
        };
        let (states, f) = match read_states(&source, d) {
            Err(e) => {
                return Err(e);
            },
            Ok(read) => read,
        };
        let g = match read_mark(&source, f, ',') {
            Err(e) => {
                return Err(e);
            },
            Ok(next) => next,
        };
        let (transitions, h) = match read_transitions(&source, g) {
            Err(e) => {
                return Err(e);
            },
            Ok(read) => read,
        };
        match read_end(&source, h) {
            Err(e) => Err(e),
            Ok(_) => Machine::new(name.as_str(), init, states, transitions),
        }
    }
}

/// Whether every binding is bound to one of `states`.
pub open spec fn bound_within(states: Seq<StateView>, bindings: Seq<StateMessageView>) -> bool {
    forall|b: int|
        0 <= b < bindings.len() ==> declared(states, (#[trigger] bindings[b]).state)
}

/// The bindings as they fit `machine`: they are declared under its name,
/// and each is bound to one of its states.
pub open spec fn fitted(machine: MachineView, messages: MessagesView) -> Result<
    MessagesView,
    DeclarationError,
> {
    if messages.name != machine.name {
        Err(DeclarationError::UnknownMachine)
    } else if !bound_within(machine.states, messages.messages) {
        Err(DeclarationError::UndeclaredState)
    } else {
        Ok(messages)
    }
}

/// The bindings that a text declares for `machine`.
pub open spec fn parsed_messages(machine: MachineView, text: Seq<char>) -> Result<
    MessagesView,
    DeclarationError,
> {
    match whole(text, messages_at(text, 0)) {
        Err(e) => Err(e),
        Ok(messages) => fitted(machine, messages),
    }
}

/// Checks that `messages` fit `machine`.
pub fn fit_messages(machine: &Machine, messages: Messages) -> (r: Result<
    Messages,
    DeclarationError,
>)
    ensures
        yields(r, fitted(machine@, messages@)),
{
    if !machine.is_named(&messages.name) {
        return Err(DeclarationError::UnknownMachine);
    }
    let ghost states = machine@.states;
    let ghost bindings = binding_views(messages.messages@);
    let mut b: usize = 0;
    while b < messages.messages.len()
        invariant
            b <= messages.messages.len(),
            messages@.name == machine@.name,
            states == machine@.states,
            bindings == binding_views(messages.messages@),
            forall|k: int| 0 <= k < b ==> declared(states, (#[trigger] bindings[k]).state),
        decreases messages.messages.len() - b,
    {
        proof {
            lemma_declared_position(states, bindings[b as int].state);
        }
        if machine.place_of(&messages.messages[b].state).is_none() {
            return Err(DeclarationError::UndeclaredState);
        }
        b += 1;
    }
    Ok(messages)
}

/// Reads the bindings of `machine` from their declaration, as in
/// `Name, [Command -> Load, Status <- Load]`, and checks that they fit it.
pub fn add_messages(machine: &Machine, input: &str) -> (r: Result<Messages, DeclarationError>)
    ensures
        yields(r, parsed_messages(machine@, input@)),
{
    match Messages::parse(input) {
        Err(e) => Err(e),
        Ok(messages) => fit_messages(machine, messages),
    }
}

} // verus!
