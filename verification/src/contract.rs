//! The runtime contract between a dispatcher and the code that drives it.

use vstd::prelude::*;
use vstd::std_specs::convert::FromSpecImpl;

verus! {

/// The decision of a guard: stay in the current state or move on.
#[derive(Clone, Copy, Debug, PartialEq, Eq, Structural)]
pub enum TransitGuard {
    /// Remain in the current state.
    Remain,
    /// Transit into the next state.
    Transit,
}

impl TransitGuard {
    /// The decision that a boolean stands for: `true` transits.
    pub open spec fn of(transit: bool) -> TransitGuard {
        if transit {
            TransitGuard::Transit
        } else {
            TransitGuard::Remain
        }
    }

    /// Whether this decision fires the transition.
    pub open spec fn fires(self) -> bool {
        self == TransitGuard::Transit
    }
}

impl From<bool> for TransitGuard {
    /// Lets a guard be written as a plain comparison.
    fn from(transit: bool) -> (guard: TransitGuard)
        ensures
            guard == TransitGuard::of(transit),
    {
        if transit {
            TransitGuard::Transit
        } else {
            TransitGuard::Remain
        }
    }
}

impl FromSpecImpl<bool> for TransitGuard {
    open spec fn obeys_from_spec() -> bool {
        true
    }

    open spec fn from_spec(transit: bool) -> TransitGuard {
        TransitGuard::of(transit)
    }
}

/// What a state machine offers to the code that drives it.
pub trait StateMachine: Sized {
    /// The value that the machine is started with.
    type InitialState;

    /// What can go wrong while the machine runs.
    type Error;

    /// The tagged union that holds the active state.
    type StatesEnum;

    /// Whether the machine can be stepped and stopped: a state value is in
    /// place, or the machine tells by its result when none is.
    spec fn runnable(&self) -> bool;

    /// Puts `state` in place as the value of the initial state. Its entry
    /// is run by the next step.
    fn start(&mut self, state: Self::InitialState) -> (r: Result<(), Self::Error>)
        ensures
            r is Ok ==> final(self).runnable(),
    ;

    /// Runs one complete step of the active state's lifecycle.
    fn step(&mut self) -> (r: Result<(), Self::Error>)
        requires
            old(self).runnable(),
        ensures
            final(self).runnable(),
    ;

    /// Runs the exit of the active state and hands it out.
    fn stop(self) -> (r: Result<Self::StatesEnum, Self::Error>)
        requires
            self.runnable(),
    ;

    /// The tagged union as it stands.
    fn peek_state(&self) -> (states: &Self::StatesEnum);
}

/// Tells whether a machine is in a given state.
pub trait IsState<State>: StateMachine {
    /// Whether `state` is the active state, with its value in place.
    spec fn in_state(&self, state: &State) -> bool;

    /// Whether `state` is the active state.
    fn is_state(&self, state: &State) -> (b: bool)
        ensures
            b == self.in_state(state),
    ;
}

/// Why a message was not exchanged.
#[derive(Debug)]
#[non_exhaustive]
pub enum MessageError<T> {
    /// The state is not active. A message that was to be pushed comes back
    /// in the error.
    StateIsNotActive(T),
}

/// A state that can receive a message.
pub trait ReceiveMessage<Message>: Sized {
    /// The state once it has received `message`.
    open spec fn received(self, message: Message) -> Self {
        self
    }

    /// Takes `message`.
    fn receive_message(&mut self, message: Message)
        ensures
            *final(self) == old(self).received(message),
    ;
}

/// A state that can return a message.
pub trait ReturnMessage<Message>: Sized {
    /// The state once it was asked for a message, and the message that it
    /// gave, if it had one.
    open spec fn returned(self) -> (Self, Option<Message>) {
        (self, None)
    }

    /// Gives the message that is waiting, if one is.
    fn return_message(&mut self) -> (message: Option<Message>)
        ensures
            (*final(self), message) == old(self).returned(),
    ;
}

/// Sends messages into a machine, which forwards them to the state they
/// are meant for. The entry points that look up the declared bindings
/// first are `push_bound` and `poll_bound` of the dispatchers.
pub trait PushMessage<State, Message>: IsState<State> {
    /// Hands `message` to `state` if that state is active. If it is not,
    /// nothing changes and the message comes back unchanged.
    fn push_message(&mut self, state: &State, message: Message) -> (r: Result<
        (),
        MessageError<Message>,
    >)
        ensures
            r is Ok <==> old(self).in_state(state),
            r matches Err(MessageError::StateIsNotActive(rejected)) ==> rejected == message
                && *final(self) == *old(self),
    ;
}

/// Fetches messages from the state they are bound to.
pub trait PollMessage<State, Message>: IsState<State> {
    /// Asks `state` for a message if that state is active. If it is not,
    /// nothing changes and the answer is an error, never an empty success.
    fn poll_message(&mut self, state: &State) -> (r: Result<Option<Message>, MessageError<()>>)
        ensures
            r is Ok <==> old(self).in_state(state),
            r is Err ==> *final(self) == *old(self),
    ;
}

} // verus!
