//! One step of one state.
//!
//! A step runs the hooks of a state and of the transitions that leave it.
//! The transitions are given by the places of their destinations, in the
//! order in which they were declared. A state that no transition leaves is
//! a state with an empty list.
//!
//! The entry, the execute and the exit of a transition run for every
//! transition that leaves the state, since each of them is entered with the
//! state and left with it. The guards are asked in the order of the
//! transitions, and none is asked behind the first that fires.

use crate::contract::TransitGuard;
use crate::non_fallible::State;
use crate::non_fallible::Transition;
use vstd::prelude::*;

verus! {

/// Where a step ends.
#[derive(Debug)]
pub enum Stepped<S, D> {
    /// No guard has fired: the state stays, with this value.
    Remain(S),
    /// A guard has fired: the state was left for the state at this place,
    /// with this value.
    Transit(usize, D),
}

/// What a hook of the transitions makes of a value when it runs once for
/// each of `targets`, in their order.
pub open spec fn through<S>(value: S, targets: Seq<usize>, hook: spec_fn(S, usize) -> S) -> S
    decreases targets.len(),
{
    if targets.len() == 0 {
        value
    } else {
        hook(through(value, targets.drop_last(), hook), targets.last())
    }
}

/// The `entry` of a transition.
pub open spec fn entries<S: Transition<D>, D>() -> spec_fn(S, usize) -> S {
    |value: S, to: usize| Transition::<D>::transition_entered(value, to)
}

/// The `execute` of a transition.
pub open spec fn executes<S: Transition<D>, D>() -> spec_fn(S, usize) -> S {
    |value: S, to: usize| Transition::<D>::transition_executed(value, to)
}

/// The `exit` of a transition.
pub open spec fn exits<S: Transition<D>, D>() -> spec_fn(S, usize) -> S {
    |value: S, to: usize| Transition::<D>::transition_exited(value, to)
}

/// The first of `targets`, from the one at `from` on, whose guard fires on
/// `value`: the transition that is taken.
pub open spec fn choice<S: Transition<D>, D>(value: S, targets: Seq<usize>, from: int) -> Option<
    int,
>
    decreases targets.len() - from,
{
    if from < 0 || from >= targets.len() {
        None
    } else if Transition::<D>::guarded(&value, targets[from]).fires() {
        Some(from)
    } else {
        choice::<S, D>(value, targets, from + 1)
    }
}

/// The value that the guards are asked about: the entries run if they are
/// owed, the state's before those of the transitions, then the executes in
/// the same order.
pub open spec fn before_guard<S: Transition<D>, D>(
    pending: bool,
    targets: Seq<usize>,
    value: S,
) -> S {
    let entered = if pending {
        through(value.entered(), targets, entries::<S, D>())
    } else {
        value
    };
    through(entered.executed(), targets, executes::<S, D>())
}

/// The value of a state once it was left or stopped: the state's exit
/// runs, then those of the transitions.
pub open spec fn after_exits<S: Transition<D>, D>(targets: Seq<usize>, value: S) -> S {
    through(value.exited(), targets, exits::<S, D>())
}

/// Where one step ends. The guards are asked in the order of the
/// transitions, and the first that fires wins: the exits run, and the state
/// is turned into the destination of that transition.
pub open spec fn step_spec<S: Transition<D>, D>(
    pending: bool,
    targets: Seq<usize>,
    value: S,
) -> Stepped<S, D> {
    let asked = before_guard::<S, D>(pending, targets, value);
    match choice::<S, D>(asked, targets, 0) {
        Some(k) => Stepped::Transit(
            targets[k],
            Transition::<D>::transited(after_exits::<S, D>(targets, asked), targets[k]),
        ),
        None => Stepped::Remain(asked),
    }
}

/// `choice` finds the first guard that fires, and finds none only where
/// none fires.
pub proof fn lemma_choice<S: Transition<D>, D>(value: S, targets: Seq<usize>, from: int)
    requires
        0 <= from,
    ensures
        match choice::<S, D>(value, targets, from) {
            Some(k) => from <= k < targets.len() && Transition::<D>::guarded(
                &value,
                targets[k],
            ).fires() && forall|j: int|
                from <= j < k ==> !Transition::<D>::guarded(&value, #[trigger] targets[j]).fires(),
            None => forall|j: int|
                from <= j < targets.len() ==> !Transition::<D>::guarded(
                    &value,
                    #[trigger] targets[j],
                ).fires(),
        },
    decreases targets.len() - from,
{
    if from < targets.len() && !Transition::<D>::guarded(&value, targets[from]).fires() {
        lemma_choice::<S, D>(value, targets, from + 1);
    }
}

/// Runs the `entry` of every transition, in order.
fn enter_all<S: Transition<D>, D>(state: S, targets: &Vec<usize>) -> (next: S)
    ensures
        next == through(state, targets@, entries::<S, D>()),
{
    let mut next = state;
    let mut i: usize = 0;
    assert(targets@.take(0) == Seq::<usize>::empty());
    while i < targets.len()
        invariant
            i <= targets.len(),
            next == through(state, targets@.take(i as int), entries::<S, D>()),
        decreases targets.len() - i,
    {
        assert(targets@.take(i + 1).drop_last() == targets@.take(i as int));
        Transition::<D>::entry(&mut next, targets[i]);
        i += 1;
    }
    assert(targets@.take(targets.len() as int) == targets@);
    next
}

/// Runs the `execute` of every transition, in order.
fn execute_all<S: Transition<D>, D>(state: S, targets: &Vec<usize>) -> (next: S)
    ensures
        next == through(state, targets@, executes::<S, D>()),
{
    let mut next = state;
    let mut i: usize = 0;
    assert(targets@.take(0) == Seq::<usize>::empty());
    while i < targets.len()
        invariant
            i <= targets.len(),
            next == through(state, targets@.take(i as int), executes::<S, D>()),
        decreases targets.len() - i,
    {
        assert(targets@.take(i + 1).drop_last() == targets@.take(i as int));
        Transition::<D>::execute(&mut next, targets[i]);
        i += 1;
    }
    assert(targets@.take(targets.len() as int) == targets@);
    next
}

/// Runs the `exit` of every transition, in order.
fn exit_all<S: Transition<D>, D>(state: S, targets: &Vec<usize>) -> (next: S)
    ensures
        next == through(state, targets@, exits::<S, D>()),
{
    let mut next = state;
    let mut i: usize = 0;
    assert(targets@.take(0) == Seq::<usize>::empty());
    while i < targets.len()
        invariant
            i <= targets.len(),
            next == through(state, targets@.take(i as int), exits::<S, D>()),
        decreases targets.len() - i,
    {
        assert(targets@.take(i + 1).drop_last() == targets@.take(i as int));
        Transition::<D>::exit(&mut next, targets[i]);
        i += 1;
    }
    assert(targets@.take(targets.len() as int) == targets@);
    next
}

/// Asks the guards in order and tells which is the first to fire.
fn choose_edge<S: Transition<D>, D>(state: &S, targets: &Vec<usize>) -> (taken: Option<usize>)
    ensures
        match taken {
            Some(k) => choice::<S, D>(*state, targets@, 0) == Some(k as int) && k < targets.len(),
            None => choice::<S, D>(*state, targets@, 0) is None,
        },
{
    let mut i: usize = 0;
    while i < targets.len()
        invariant
            i <= targets.len(),
            choice::<S, D>(*state, targets@, 0) == choice::<S, D>(*state, targets@, i as int),
        decreases targets.len() - i,
    {
        match Transition::<D>::guard(state, targets[i]) {
            TransitGuard::Transit => {
                return Some(i);
            },
            TransitGuard::Remain => {},
        }
        i += 1;
    }
    None
}

/// Runs one step of a state that the transitions to `targets` leave.
pub fn step<S: Transition<D>, D>(state: S, do_entry: bool, targets: &Vec<usize>) -> (next: Stepped<
    S,
    D,
>)
    ensures
        next == step_spec::<S, D>(do_entry, targets@, state),
{
    let mut state = state;
    if do_entry {
        State::entry(&mut state);
        state = enter_all::<S, D>(state, targets);
    }
    State::execute(&mut state);
    state = execute_all::<S, D>(state, targets);
    match choose_edge::<S, D>(&state, targets) {
        None => Stepped::Remain(state),
        Some(k) => {
            State::exit(&mut state);
            state = exit_all::<S, D>(state, targets);
            let to = targets[k];
            Stepped::Transit(to, Transition::<D>::transit(state, to))
        },
    }
}

/// Stops a state that the transitions to `targets` leave.
pub fn stop<S: Transition<D>, D>(state: S, targets: &Vec<usize>) -> (last: S)
    ensures
        last == after_exits::<S, D>(targets@, state),
{
    let mut state = state;
    State::exit(&mut state);
    exit_all::<S, D>(state, targets)
}

} // verus!
