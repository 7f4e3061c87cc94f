//! The tagged union of a machine's states, and what can be asked of it.

use crate::error::DeclarationError;
use crate::machine::Machine;
use crate::parsers::match_state_entry_at;
use crate::parsers::state_entry_at;
use crate::parsers::whole;
use crate::types::MatchStateEntry;
use crate::types::StateEntry;
use crate::types::StateEntryView;
use vstd::prelude::*;

verus! {

/// What a [`Tagged`] stands for.
pub struct TaggedView<S> {
    /// The name of the union.
    pub enum_name: Seq<char>,
    /// The tag: the variant identifier of the active state.
    pub variant: Seq<char>,
    /// The place of the active state among the machine's states.
    pub index: int,
    /// The value of the active state.
    pub slot: Option<S>,
}

/// The tagged union of a machine's states. One state is active at a time:
/// the tag names it, and the slot holds its value. The slot is empty only
/// while the value is out to have its hooks run, and before the machine is
/// started.
#[derive(Debug)]
pub struct Tagged<S> {
    /// The name of the union: the machine's name and the word `States`.
    pub enum_name: String,
    /// The tag: the variant identifier of the active state.
    pub variant: String,
    /// The place of the active state among the machine's states.
    pub index: usize,
    /// The value of the active state.
    pub slot: Option<S>,
}

impl<S> View for Tagged<S> {
    type V = TaggedView<S>;

    open spec fn view(&self) -> TaggedView<S> {
        TaggedView {
            enum_name: self.enum_name@,
            variant: self.variant@,
            index: self.index as int,
            slot: self.slot,
        }
    }
}

impl<S> TaggedView<S> {
    /// Whether the union is that of `entry` and stands at its branch.
    pub open spec fn at(self, entry: StateEntryView) -> bool {
        self.enum_name == entry.enum_name && self.variant == entry.state_entry
    }
}

impl<S> Tagged<S> {
    /// The tagged union of `machine` that stands at the state at place
    /// `index`, with `slot`.
    pub fn of(machine: &Machine, index: usize, slot: Option<S>) -> (states: Tagged<S>)
        requires
            index < machine@.states.len(),
        ensures
            states@ == (TaggedView {
                enum_name: machine@.enum_name,
                variant: machine@.states[index as int].enum_name,
                index: index as int,
                slot,
            }),
    {
        let state = &machine.states()[index];
        Tagged {
            enum_name: String::from_str(machine.union_name()),
            variant: String::from_str(state.enum_name()),
            index,
            slot,
        }
    }

    /// Whether the union is that of `entry` and stands at its branch.
    pub fn at(&self, entry: &StateEntry) -> (b: bool)
        ensures
            b == self@.at(entry@),
    {
        self.enum_name == entry.enum_name && self.variant == entry.state_entry
    }

    /// The slot of the union if it stands at the branch of `entry`.
    pub fn entry(&self, entry: &MatchStateEntry) -> (slot: Option<&Option<S>>)
        ensures
            slot == (if self@.at(entry@.state_entry) {
                Some(&self.slot)
            } else {
                None
            }),
    {
        if self.at(&entry.state_entry) {
            Some(&self.slot)
        } else {
            None
        }
    }
}

/// What `is_state` answers on a declaration and a union.
pub open spec fn is_state_spec<S>(text: Seq<char>, state: TaggedView<S>) -> Result<
    bool,
    DeclarationError,
> {
    match whole(text, state_entry_at(text, 0)) {
        Err(e) => Err(e),
        Ok(entry) => Ok(state.at(entry)),
    }
}

/// Checks whether `state`, as `peek_state` or `stop` returned it, stands at
/// the branch that `input` names by the machine's name and a state, as in
/// `Elevator, Move<Up>`.
pub fn is_state<S>(input: &str, state: &Tagged<S>) -> (r: Result<bool, DeclarationError>)
    ensures
        r == is_state_spec(input@, state@),
{
    match StateEntry::parse(input) {
        Err(e) => Err(e),
        Ok(entry) => Ok(state.at(&entry)),
    }
}

/// What `match_state_entry` answers on a declaration and a union, with the
/// slot of the union.
pub open spec fn match_state_entry_spec<S>(text: Seq<char>, state: TaggedView<S>) -> Result<
    Option<Option<S>>,
    DeclarationError,
> {
    match whole(text, match_state_entry_at(text, 0)) {
        Err(e) => Err(e),
        Ok(entry) => Ok(
            if state.at(entry.state_entry) {
                Some(state.slot)
            } else {
                None
            },
        ),
    }
}

/// Hands out the slot of `state` if it stands at the branch that `input`
/// names by the machine's name, a state and a variable, as in
/// `Elevator, Move<Up>, state`.
pub fn match_state_entry<'a, S>(input: &str, state: &'a Tagged<S>) -> (r: Result<
    Option<&'a Option<S>>,
    DeclarationError,
>)
    ensures
        match_state_entry_spec(input@, state@) == (match r {
            Err(e) => Err::<Option<Option<S>>, DeclarationError>(e),
            Ok(None) => Ok(None),
            Ok(Some(slot)) => Ok(Some(*slot)),
        }),
{
    match MatchStateEntry::parse(input) {
        Err(e) => Err(e),
        Ok(entry) => Ok(state.entry(&entry)),
    }
}

} // verus!
