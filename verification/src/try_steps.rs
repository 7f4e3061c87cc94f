//! One step of one state whose hooks may fail.
//!
//! The hooks run in the order of a step without error handling, up to the
//! first that fails. What hands out the value then hands out the error with
//! it.

use crate::contract::TransitGuard;
use crate::fallible::TryHooks;
use crate::fallible::TryState;
use crate::fallible::TryTransition;
use vstd::prelude::*;

verus! {

/// Where a step ends, if its hooks may fail.
#[derive(Debug)]
pub enum TryStepped<S, D, E> {
    /// No guard has fired: the state stays, with this value.
    Remain(S),
    /// A guard has fired: the state was left for the state at this place,
    /// with this value.
    Transit(usize, D),
    /// A hook has failed with this error, and has left this value.
    Fault(S, E),
}

/// What a hook makes of what the hooks before it have made: nothing if one
/// of them has failed.
pub open spec fn chain<S, E>(
    before: (S, Result<(), E>),
    hook: spec_fn(S) -> (S, Result<(), E>),
) -> (S, Result<(), E>) {
    match before.1 {
        Err(_) => before,
        Ok(_) => hook(before.0),
    }
}

/// What a hook of the transitions makes of a value when it runs once for
/// each of `targets`, in their order, up to the first run that fails.
pub open spec fn try_through<S, E>(
    value: S,
    targets: Seq<usize>,
    hook: spec_fn(S, usize) -> (S, Result<(), E>),
) -> (S, Result<(), E>)
    decreases targets.len(),
{
    if targets.len() == 0 {
        (value, Ok(()))
    } else {
        chain(
            try_through(value, targets.drop_last(), hook),
            |before: S| hook(before, targets.last()),
        )
    }
}

/// The `try_entry` of a transition.
pub open spec fn try_entries<S: TryHooks<D>, D>() -> spec_fn(S, usize) -> (
    S,
    Result<(), <S as TryState>::Error>,
) {
    |value: S, to: usize| TryTransition::<D>::transition_try_entered(value, to)
}

/// The `try_execute` of a transition.
pub open spec fn try_executes<S: TryHooks<D>, D>() -> spec_fn(S, usize) -> (
    S,
    Result<(), <S as TryState>::Error>,
) {
    |value: S, to: usize| TryTransition::<D>::transition_try_executed(value, to)
}

/// The `try_exit` of a transition.
pub open spec fn try_exits<S: TryHooks<D>, D>() -> spec_fn(S, usize) -> (
    S,
    Result<(), <S as TryState>::Error>,
) {
    |value: S, to: usize| TryTransition::<D>::transition_try_exited(value, to)
}

/// The first of `targets`, from the one at `from` on, whose guard fires on
/// `value`: the transition that is taken.
pub open spec fn try_choice<S: TryHooks<D>, D>(
    value: S,
    targets: Seq<usize>,
    from: int,
) -> Option<int>
    decreases targets.len() - from,
{
    if from < 0 || from >= targets.len() {
        None
    } else if TryTransition::<D>::guarded(&value, targets[from]).fires() {
        Some(from)
    } else {
        try_choice::<S, D>(value, targets, from + 1)
    }
}

/// The value that the guards are asked about, and whether a hook before
/// the guards has failed: the entries run if they are owed, the state's
/// before those of the transitions, then the executes in the same order.
pub open spec fn try_before_guard<S: TryHooks<D>, D>(
    pending: bool,
    targets: Seq<usize>,
    value: S,
) -> (S, Result<(), <S as TryState>::Error>) {
    let entered = if pending {
        chain(value.try_entered(), |v: S| try_through(v, targets, try_entries::<S, D>()))
    } else {
        (value, Ok(()))
    };
    chain(
        chain(entered, |v: S| v.try_executed()),
        |v: S| try_through(v, targets, try_executes::<S, D>()),
    )
}

/// The value of a state once it was left or stopped, and whether an exit
/// has failed: the state's exit runs, then those of the transitions.
pub open spec fn try_after_exits<S: TryHooks<D>, D>(targets: Seq<usize>, value: S) -> (
    S,
    Result<(), <S as TryState>::Error>,
) {
    chain(value.try_exited(), |v: S| try_through(v, targets, try_exits::<S, D>()))
}

/// Where one step ends. The guards are asked in the order of the
/// transitions, and the first that fires wins.
pub open spec fn try_step_spec<S: TryHooks<D>, D>(
    pending: bool,
    targets: Seq<usize>,
    value: S,
) -> TryStepped<S, D, <S as TryState>::Error> {
    let (asked, opened) = try_before_guard::<S, D>(pending, targets, value);
    match opened {
        Err(e) => TryStepped::Fault(asked, e),
        Ok(_) => match try_choice::<S, D>(asked, targets, 0) {
            Some(k) => {
                let (gone, closed) = try_after_exits::<S, D>(targets, asked);
                match closed {
                    Err(e) => TryStepped::Fault(gone, e),
                    Ok(_) => TryStepped::Transit(
                        targets[k],
                        TryTransition::<D>::transited(gone, targets[k]),
                    ),
                }
            },
            None => TryStepped::Remain(asked),
        },
    }
}

/// `try_choice` finds the first guard that fires within the transitions.
pub proof fn lemma_try_choice<S: TryHooks<D>, D>(value: S, targets: Seq<usize>, from: int)
    requires
        0 <= from,
    ensures
        match try_choice::<S, D>(value, targets, from) {
            Some(k) => from <= k < targets.len() && TryTransition::<D>::guarded(
                &value,
                targets[k],
            ).fires() && forall|j: int|
                from <= j < k ==> !TryTransition::<D>::guarded(
                    &value,
                    #[trigger] targets[j],
                ).fires(),
            None => forall|j: int|
                from <= j < targets.len() ==> !TryTransition::<D>::guarded(
                    &value,
                    #[trigger] targets[j],
                ).fires(),
        },
    decreases targets.len() - from,
{
    if from < targets.len() && !TryTransition::<D>::guarded(&value, targets[from]).fires() {
        lemma_try_choice::<S, D>(value, targets, from + 1);
    }
}

/// One more transition at the end is one more run of the hook, unless a
/// run before it has failed.
pub proof fn lemma_try_through_push<S, E>(
    value: S,
    targets: Seq<usize>,
    last: usize,
    hook: spec_fn(S, usize) -> (S, Result<(), E>),
)
    ensures
        try_through(value, targets.push(last), hook) == (match try_through(
            value,
            targets,
            hook,
        ).1 {
            Err(_) => try_through(value, targets, hook),
            Ok(_) => hook(try_through(value, targets, hook).0, last),
        }),
{
    assert(targets.push(last).drop_last() == targets);
}

/// Once a hook has failed for one transition, it runs for none behind it.
pub proof fn lemma_fault_ends_round<S, E>(
    value: S,
    targets: Seq<usize>,
    run: int,
    hook: spec_fn(S, usize) -> (S, Result<(), E>),
)
    requires
        0 <= run <= targets.len(),
        try_through(value, targets.take(run), hook).1 is Err,
    ensures
        try_through(value, targets, hook) == try_through(value, targets.take(run), hook),
    decreases targets.len() - run,
{
    if run == targets.len() {
        assert(targets.take(run) == targets);
    } else {
        assert(targets.drop_last().take(run) == targets.take(run));
        lemma_fault_ends_round(value, targets.drop_last(), run, hook);
    }
}

/// Runs the `try_entry` of every transition, in order.
fn try_enter_all<S: TryHooks<D>, D>(state: S, targets: &Vec<usize>) -> (next: (
    S,
    Result<(), <S as TryState>::Error>,
))
    ensures
        next == try_through(state, targets@, try_entries::<S, D>()),
{
    let mut next = state;
    let mut i: usize = 0;
    assert(targets@.take(0) == Seq::<usize>::empty());
    while i < targets.len()
        invariant
            i <= targets.len(),
            try_through(state, targets@.take(i as int), try_entries::<S, D>()).0 == next,
            try_through(state, targets@.take(i as int), try_entries::<S, D>()).1 is Ok,
        decreases targets.len() - i,
    {
        proof {
            assert(targets@.take(i + 1) == targets@.take(i as int).push(targets@[i as int]));
            lemma_try_through_push(
                state,
                targets@.take(i as int),
                targets@[i as int],
                try_entries::<S, D>(),
            );
        }
        let ghost before = next;
        let result = TryTransition::<D>::try_entry(&mut next, targets[i]);
        assert(try_entries::<S, D>()(before, targets@[i as int]) == (next, result));
        match result {
            Err(e) => {
                proof {
                    lemma_fault_ends_round(state, targets@, i + 1, try_entries::<S, D>());
                }
                return (next, Err(e));
            },
            Ok(_) => {},
        }
        i += 1;
    }
    proof {
        assert(targets@.take(targets.len() as int) == targets@);
        match try_through(state, targets@, try_entries::<S, D>()).1 {
            Ok(unit) => {
                assert(unit == ());
            },
            Err(_) => {},
        }
    }
    (next, Ok(()))
}

/// Runs the `try_execute` of every transition, in order.
fn try_execute_all<S: TryHooks<D>, D>(state: S, targets: &Vec<usize>) -> (next: (
    S,
    Result<(), <S as TryState>::Error>,
))
    ensures
        next == try_through(state, targets@, try_executes::<S, D>()),
{
    let mut next = state;
    let mut i: usize = 0;
    assert(targets@.take(0) == Seq::<usize>::empty());
    while i < targets.len()
        invariant
            i <= targets.len(),
            try_through(state, targets@.take(i as int), try_executes::<S, D>()).0 == next,
            try_through(state, targets@.take(i as int), try_executes::<S, D>()).1 is Ok,
        decreases targets.len() - i,
    {
        proof {
            assert(targets@.take(i + 1) == targets@.take(i as int).push(targets@[i as int]));
            lemma_try_through_push(
                state,
                targets@.take(i as int),
                targets@[i as int],
                try_executes::<S, D>(),
            );
        }
        let ghost before = next;
        let result = TryTransition::<D>::try_execute(&mut next, targets[i]);
        assert(try_executes::<S, D>()(before, targets@[i as int]) == (next, result));
        match result {
            Err(e) => {
                proof {
                    lemma_fault_ends_round(state, targets@, i + 1, try_executes::<S, D>());
                }
                return (next, Err(e));
            },
            Ok(_) => {},
        }
        i += 1;
    }
    proof {
        assert(targets@.take(targets.len() as int) == targets@);
        match try_through(state, targets@, try_executes::<S, D>()).1 {
            Ok(unit) => {
                assert(unit == ());
            },
            Err(_) => {},
        }
    }
    (next, Ok(()))
}

/// Runs the `try_exit` of every transition, in order.
fn try_exit_all<S: TryHooks<D>, D>(state: S, targets: &Vec<usize>) -> (next: (
    S,
    Result<(), <S as TryState>::Error>,
))
    ensures
        next == try_through(state, targets@, try_exits::<S, D>()),
{
    let mut next = state;
    let mut i: usize = 0;
    assert(targets@.take(0) == Seq::<usize>::empty());
    while i < targets.len()
        invariant
            i <= targets.len(),
            try_through(state, targets@.take(i as int), try_exits::<S, D>()).0 == next,
            try_through(state, targets@.take(i as int), try_exits::<S, D>()).1 is Ok,
        decreases targets.len() - i,
    {
        proof {
            assert(targets@.take(i + 1) == targets@.take(i as int).push(targets@[i as int]));
            lemma_try_through_push(
                state,
                targets@.take(i as int),
                targets@[i as int],
                try_exits::<S, D>(),
            );
        }
        let ghost before = next;
        let result = TryTransition::<D>::try_exit(&mut next, targets[i]);
        assert(try_exits::<S, D>()(before, targets@[i as int]) == (next, result));
        match result {
            Err(e) => {
                proof {
                    lemma_fault_ends_round(state, targets@, i + 1, try_exits::<S, D>());
                }
                return (next, Err(e));
            },
            Ok(_) => {},
        }
        i += 1;
    }
    proof {
        assert(targets@.take(targets.len() as int) == targets@);
        match try_through(state, targets@, try_exits::<S, D>()).1 {
            Ok(unit) => {
                assert(unit == ());
            },
            Err(_) => {},
        }
    }
    (next, Ok(()))
}

/// Asks the guards in order and tells which is the first to fire.
fn try_choose_edge<S: TryHooks<D>, D>(state: &S, targets: &Vec<usize>) -> (taken: Option<
    usize,
>)
    ensures
        match taken {
            Some(k) => try_choice::<S, D>(*state, targets@, 0) == Some(k as int) && k
                < targets.len(),
            None => try_choice::<S, D>(*state, targets@, 0) is None,
        },
{
    let mut i: usize = 0;
    while i < targets.len()
        invariant
            i <= targets.len(),
            try_choice::<S, D>(*state, targets@, 0) == try_choice::<S, D>(
                *state,
                targets@,
                i as int,
            ),
        decreases targets.len() - i,
    {
        match TryTransition::<D>::guard(state, targets[i]) {
            TransitGuard::Transit => {
                return Some(i);
            },
            TransitGuard::Remain => {},
        }
        i += 1;
    }
    None
}

/// Runs one step of a state that the transitions to `targets` leave.
pub fn try_step<S: TryHooks<D>, D>(state: S, do_entry: bool, targets: &Vec<usize>) -> (next:
    TryStepped<S, D, <S as TryState>::Error>)
    ensures
        next == try_step_spec::<S, D>(do_entry, targets@, state),
{
    let mut state = state;
    if do_entry {
        match TryState::try_entry(&mut state) {
            Err(e) => {
                return TryStepped::Fault(state, e);
            },
            Ok(_) => {},
        }
        match try_enter_all::<S, D>(state, targets) {
            (entered, Err(e)) => {
                return TryStepped::Fault(entered, e);
            },
            (entered, Ok(_)) => {
                state = entered;
            },
        }
    }
    match TryState::try_execute(&mut state) {
        Err(e) => {
            return TryStepped::Fault(state, e);
        },
        Ok(_) => {},
    }
    match try_execute_all::<S, D>(state, targets) {
        (executed, Err(e)) => {
            return TryStepped::Fault(executed, e);
        },
        (executed, Ok(_)) => {
            state = executed;
        },
    }
    match try_choose_edge::<S, D>(&state, targets) {
        None => TryStepped::Remain(state),
        Some(k) => match try_stop::<S, D>(state, targets) {
            (gone, Err(e)) => TryStepped::Fault(gone, e),
            (gone, Ok(_)) => {
                let to = targets[k];
                TryStepped::Transit(to, TryTransition::<D>::transit(gone, to))
            },
        },
    }
}

/// Stops a state that the transitions to `targets` leave.
pub fn try_stop<S: TryHooks<D>, D>(state: S, targets: &Vec<usize>) -> (last: (
    S,
    Result<(), <S as TryState>::Error>,
))
    ensures
        last == try_after_exits::<S, D>(targets@, state),
{
    let mut state = state;
    match TryState::try_exit(&mut state) {
        Err(e) => {
            return (state, Err(e));
        },
        Ok(_) => {},
    }
    try_exit_all::<S, D>(state, targets)
}

} // verus!
