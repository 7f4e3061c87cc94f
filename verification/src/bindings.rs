//! Message entry points that are scoped to the declared bindings.
//!
//! A message is exchanged with a state only where a binding of the right
//! direction was declared for that state: `->` for a message that is pushed
//! into it, `<-` for one that is polled from it.

use crate::contract::IsState;
use crate::contract::MessageError;
use crate::contract::PollMessage;
use crate::contract::PushMessage;
use crate::contract::ReceiveMessage;
use crate::contract::ReturnMessage;
use crate::dispatcher::Dispatcher;
use crate::dispatcher::DispatcherView;
use crate::fallible::TryErrorState;
use crate::fallible::TryHooks;
use crate::fallible::TryState;
use crate::fallible::TryTransition;
use crate::non_fallible::Transition;
use crate::try_dispatcher::TryDispatcher;
use crate::try_dispatcher::TryDispatcherView;
use crate::types::binding_views;
use crate::types::MessageDir;
use crate::types::Messages;
use crate::types::MessagesView;
use crate::types::State;
use crate::types::StateMessageView;
use crate::types::StateView;
use vstd::prelude::*;

verus! {

/// Whether `binding` binds `state` in the given direction.
pub open spec fn binds(binding: StateMessageView, push: bool, state: StateView) -> bool {
    binding.state.same(state) && (binding.message is Push) == push
}

/// Whether a binding of the given direction is declared for `state`:
/// pushed into it if `push`, polled from it if not.
pub open spec fn bound(messages: MessagesView, push: bool, state: StateView) -> bool {
    exists|b: int|
        0 <= b < messages.messages.len() && binds(#[trigger] messages.messages[b], push, state)
}

/// Whether a binding of the given direction is declared for `state`.
pub fn is_bound(messages: &Messages, push: bool, state: &State) -> (b: bool)
    ensures
        b == bound(messages@, push, state@),
{
    let ghost views = binding_views(messages.messages@);
    let mut i: usize = 0;
    while i < messages.messages.len()
        invariant
            i <= messages.messages.len(),
            views == binding_views(messages.messages@),
            views == messages@.messages,
            forall|b: int| 0 <= b < i ==> !binds(#[trigger] views[b], push, state@),
        decreases messages.messages.len() - i,
    {
        let binding = &messages.messages[i];
        assert(views[i as int] == binding@);
        let pushes = match binding.message {
            MessageDir::Push(_) => true,
            MessageDir::Poll(_) => false,
        };
        if pushes == push && binding.state.same(state) {
            return true;
        }
        i += 1;
    }
    false
}

impl<S: Transition<S>> Dispatcher<S> {
    /// Hands `message` to `state` if a binding declares that messages are
    /// pushed into it, and it is active. If not, nothing changes and the
    /// message comes back unchanged.
    pub fn push_bound<M>(&mut self, messages: &Messages, state: &State, message: M) -> (r: Result<
        (),
        MessageError<M>,
    >) where S: ReceiveMessage<M>
        ensures
            r is Ok <==> bound(messages@, true, state@) && old(self).in_state(state),
            r is Ok ==> final(self)@ == (DispatcherView {
                slot: Some(old(self)@.slot.unwrap().received(message)),
                ..old(self)@
            }),
            r matches Err(MessageError::StateIsNotActive(rejected)) ==> rejected == message
                && final(self)@ == old(self)@,
    {
        if !is_bound(messages, true, state) {
            return Err(MessageError::StateIsNotActive(message));
        }
        self.push_message(state, message)
    }

    /// Asks `state` for a message if a binding declares that messages are
    /// polled from it, and it is active. If not, nothing changes and the
    /// answer is an error.
    pub fn poll_bound<M>(&mut self, messages: &Messages, state: &State) -> (r: Result<
        Option<M>,
        MessageError<()>,
    >) where S: ReturnMessage<M>
        ensures
            r is Ok <==> bound(messages@, false, state@) && old(self).in_state(state),
            r matches Ok(message) ==> message == old(self)@.slot.unwrap().returned().1
                && final(self)@ == (DispatcherView {
                slot: Some(old(self)@.slot.unwrap().returned().0),
                ..old(self)@
            }),
            r is Err ==> final(self)@ == old(self)@,
    {
        if !is_bound(messages, false, state) {
            return Err(MessageError::StateIsNotActive(()));
        }
        self.poll_message(state)
    }
}

impl<S: TryHooks<S> + TryErrorState> TryDispatcher<S> where <S as TryState>::Error: Clone {
    /// Hands `message` to `state` if a binding declares that messages are
    /// pushed into it, and it is active. If not, nothing changes and the
    /// message comes back unchanged.
    pub fn push_bound<M>(&mut self, messages: &Messages, state: &State, message: M) -> (r: Result<
        (),
        MessageError<M>,
    >) where S: ReceiveMessage<M>
        ensures
            r is Ok <==> bound(messages@, true, state@) && old(self).in_state(state),
            r is Ok ==> final(self)@ == (TryDispatcherView {
                slot: Some(old(self)@.slot.unwrap().received(message)),
                ..old(self)@
            }),
            r matches Err(MessageError::StateIsNotActive(rejected)) ==> rejected == message
                && final(self)@ == old(self)@,
    {
        if !is_bound(messages, true, state) {
            return Err(MessageError::StateIsNotActive(message));
        }
        self.push_message(state, message)
    }

    /// Asks `state` for a message if a binding declares that messages are
    /// polled from it, and it is active. If not, nothing changes and the
    /// answer is an error.
    pub fn poll_bound<M>(&mut self, messages: &Messages, state: &State) -> (r: Result<
        Option<M>,
        MessageError<()>,
    >) where S: ReturnMessage<M>
        ensures
            r is Ok <==> bound(messages@, false, state@) && old(self).in_state(state),
            r matches Ok(message) ==> message == old(self)@.slot.unwrap().returned().1
                && final(self)@ == (TryDispatcherView {
                slot: Some(old(self)@.slot.unwrap().returned().0),
                ..old(self)@
            }),
            r is Err ==> final(self)@ == old(self)@,
    {
        if !is_bound(messages, false, state) {
            return Err(MessageError::StateIsNotActive(()));
        }
        self.poll_message(state)
    }
}

} // verus!
