//! What the states of a machine without error handling implement.
//!
//! Every hook is a function of the state value alone: the contract of each
//! names what it makes of the value, so that the contract of a step can say
//! which hooks were run, and in which order. An implementation says what
//! its hooks do by the spec functions beside them. Where it says nothing, a
//! hook is taken to leave the value as it is.

use crate::contract::TransitGuard;
use vstd::prelude::*;

verus! {

/// The lifecycle of a state.
pub trait State: Sized {
    /// The state once it was entered.
    open spec fn entered(self) -> Self {
        self
    }

    /// The state once it was executed.
    open spec fn executed(self) -> Self {
        self
    }

    /// The state once it was left.
    open spec fn exited(self) -> Self {
        self
    }

    /// Runs once, right before the first `execute` after the state became
    /// active.
    fn entry(&mut self)
        ensures
            *final(self) == old(self).entered(),
    ;

    /// Runs in every step while the state is active.
    fn execute(&mut self)
        ensures
            *final(self) == old(self).executed(),
    ;

    /// Runs once, right before the state is replaced or the machine stops.
    fn exit(&mut self)
        ensures
            *final(self) == old(self).exited(),
    ;
}

/// The transitions that leave a state for a `Destination`. A state may be
/// left by several transitions. Each hook is told which one is meant by the
/// place of the transition's destination among the states of the machine.
/// The hooks of a transition run right after the state's hooks of the same
/// name, and those of several transitions in the order in which the
/// transitions were declared.
pub trait Transition<Destination>: State {
    /// The state once the `entry` of the transition to `to` has run.
    open spec fn transition_entered(self, to: usize) -> Self {
        self
    }

    /// The state once the `execute` of the transition to `to` has run.
    open spec fn transition_executed(self, to: usize) -> Self {
        self
    }

    /// The state once the `exit` of the transition to `to` has run.
    open spec fn transition_exited(self, to: usize) -> Self {
        self
    }

    /// What the guard of the transition to `to` decides of the state.
    open spec fn guarded(&self, to: usize) -> TransitGuard {
        TransitGuard::Remain
    }

    /// The destination that the transition to `to` turns the state into.
    open spec fn transited(self, to: usize) -> Destination {
        arbitrary()
    }

    /// Runs right after the state's `entry`.
    fn entry(&mut self, to: usize)
        ensures
            *final(self) == old(self).transition_entered(to),
    ;

    /// Runs right after the state's `execute`.
    fn execute(&mut self, to: usize)
        ensures
            *final(self) == old(self).transition_executed(to),
    ;

    /// Runs right after the state's `exit`.
    fn exit(&mut self, to: usize)
        ensures
            *final(self) == old(self).transition_exited(to),
    ;

    /// Decides whether the transition to `to` fires.
    fn guard(&self, to: usize) -> (decision: TransitGuard)
        ensures
            decision == self.guarded(to),
    ;

    /// Consumes the state and makes the destination of it.
    fn transit(self, to: usize) -> (destination: Destination)
        ensures
            destination == self.transited(to),
    ;
}

} // verus!
