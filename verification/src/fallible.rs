//! What the states of a machine with error handling implement.
//!
//! The hooks are those of a machine without error handling, but each may
//! fail. A hook that fails sends the machine into its error state, which is
//! handed the error before it is entered.

use crate::contract::TransitGuard;
use vstd::prelude::*;

verus! {

/// What a step of a machine with error handling can report.
#[derive(Debug)]
#[non_exhaustive]
pub enum ExtendedSfsmError<T> {
    /// The machine was asked to work on a state value that is not in place.
    Internal,
    /// A hook of a state has failed with this error.
    Custom(T),
}

/// The lifecycle of a state whose hooks may fail.
pub trait TryState: Sized {
    /// What a hook fails with.
    type Error;

    /// The state once `try_entry` has run, and whether it failed.
    open spec fn try_entered(self) -> (Self, Result<(), Self::Error>) {
        (self, Ok(()))
    }

    /// The state once `try_execute` has run, and whether it failed.
    open spec fn try_executed(self) -> (Self, Result<(), Self::Error>) {
        (self, Ok(()))
    }

    /// The state once `try_exit` has run, and whether it failed.
    open spec fn try_exited(self) -> (Self, Result<(), Self::Error>) {
        (self, Ok(()))
    }

    /// Runs once, right before the first `try_execute` after the state
    /// became active.
    fn try_entry(&mut self) -> (r: Result<(), Self::Error>)
        ensures
            (*final(self), r) == old(self).try_entered(),
    ;

    /// Runs in every step while the state is active.
    fn try_execute(&mut self) -> (r: Result<(), Self::Error>)
        ensures
            (*final(self), r) == old(self).try_executed(),
    ;

    /// Runs once, right before the state is replaced or the machine stops.
    fn try_exit(&mut self) -> (r: Result<(), Self::Error>)
        ensures
            (*final(self), r) == old(self).try_exited(),
    ;
}

/// The transitions that leave a state for a `DestinationState`, with hooks
/// that may fail. Each hook is told which transition is meant by the place
/// of the transition's destination among the states of the machine. Each
/// runs right after the state's hook of the same name, and those of several
/// transitions run in the order in which the transitions were declared.
/// The trait names its own error, which is that of the state: a machine
/// takes states whose two errors are one type.
pub trait TryTransition<DestinationState>: Sized {
    /// What a hook fails with: the error of the state's own hooks.
    type Error;

    /// The state once the `try_entry` of the transition to `to` has run, and
    /// whether it failed.
    open spec fn transition_try_entered(self, to: usize) -> (Self, Result<(), Self::Error>) {
        (self, Ok(()))
    }

    /// The state once the `try_execute` of the transition to `to` has run,
    /// and whether it failed.
    open spec fn transition_try_executed(self, to: usize) -> (Self, Result<(), Self::Error>) {
        (self, Ok(()))
    }

    /// The state once the `try_exit` of the transition to `to` has run, and
    /// whether it failed.
    open spec fn transition_try_exited(self, to: usize) -> (Self, Result<(), Self::Error>) {
        (self, Ok(()))
    }

    /// What the guard of the transition to `to` decides of the state.
    open spec fn guarded(&self, to: usize) -> TransitGuard {
        TransitGuard::Remain
    }

    /// The destination that the transition to `to` turns the state into.
    open spec fn transited(self, to: usize) -> DestinationState {
        arbitrary()
    }

    /// Runs right after the state's `try_entry`.
    fn try_entry(&mut self, to: usize) -> (r: Result<(), Self::Error>)
        ensures
            (*final(self), r) == old(self).transition_try_entered(to),
    ;

    /// Runs right after the state's `try_execute`.
    fn try_execute(&mut self, to: usize) -> (r: Result<(), Self::Error>)
        ensures
            (*final(self), r) == old(self).transition_try_executed(to),
    ;

    /// Runs right after the state's `try_exit`.
    fn try_exit(&mut self, to: usize) -> (r: Result<(), Self::Error>)
        ensures
            (*final(self), r) == old(self).transition_try_exited(to),
    ;

    /// Decides whether the transition to `to` fires.
    fn guard(&self, to: usize) -> (decision: TransitGuard)
        ensures
            decision == self.guarded(to),
    ;

    /// Consumes the state and makes the destination of it.
    fn transit(self, to: usize) -> (destination: DestinationState)
        ensures
            destination == self.transited(to),
    ;
}

/// The state that a machine falls into when a hook fails.
pub trait TryErrorState: TryState {
    /// The state once it was handed `err`.
    open spec fn consumed(self, err: Self::Error) -> Self {
        self
    }

    /// Takes the error that another state's hook has failed with.
    fn consume_error(&mut self, err: Self::Error)
        ensures
            *final(self) == old(self).consumed(err),
    ;
}

/// A state whose own hooks and whose transitions into `DestinationState`
/// fail with one and the same error. Every such state has this trait: there
/// is nothing to implement.
pub trait TryHooks<DestinationState>: TryState + TryTransition<
    DestinationState,
    Error = <Self as TryState>::Error,
> {

}

impl<S, D> TryHooks<D> for S where S: TryState + TryTransition<D, Error = <S as TryState>::Error> {

}

} // verus!
