//! The lifecycle of a running machine with error handling, as a model.
//!
//! A step runs the same hooks in the same order as in a machine without
//! error handling. The first hook that fails ends the step: the machine
//! falls into its error state with that state's entry owed, and the error
//! is kept for it.

use crate::fallible::TryErrorState;
use crate::fallible::TryHooks;
use crate::fallible::TryState;
use crate::fallible::TryTransition;
use crate::lifecycle::apply;
use crate::lifecycle::closing;
use crate::lifecycle::count;
use crate::lifecycle::Hook;
use crate::lifecycle::Instance;
use crate::lifecycle::lemma_count_concat;
use crate::lifecycle::lemma_part_counts;
use crate::lifecycle::opening;
use crate::lifecycle::step_hooks;
use crate::lifecycle::stepped;
use crate::lifecycle::stopping;
use crate::machine::MachineView;
use crate::non_fallible::Transition;
use crate::steps::choice;
use crate::steps::entries;
use crate::steps::executes;
use crate::steps::exits;
use crate::steps::through;
use crate::try_steps::lemma_try_choice;
use crate::try_steps::try_after_exits;
use crate::try_steps::try_before_guard;
use crate::try_steps::try_choice;
use crate::try_steps::try_entries;
use crate::try_steps::try_executes;
use crate::try_steps::try_exits;
use crate::try_steps::try_step_spec;
use crate::try_steps::try_through;
use crate::try_steps::TryStepped;
use vstd::prelude::*;

verus! {

/// What hooks have made of a value, and the error of the one that failed.
pub struct Outcome<S, E> {
    /// The value as the last hook that ran has left it.
    pub value: S,
    /// The error of the hook that failed, if one did.
    pub fault: Option<E>,
}

/// What one hook makes of the value of a state that the transitions to
/// `targets` leave, and whether it fails. The guards and the conversion
/// never fail.
pub open spec fn try_effect<S: TryHooks<S>>(targets: Seq<usize>, hook: Hook, value: S) -> (
    S,
    Result<(), <S as TryState>::Error>,
) {
    match hook {
        Hook::StateEntry => value.try_entered(),
        Hook::TransitionEntry => try_through(value, targets, try_entries::<S, S>()),
        Hook::StateExecute => value.try_executed(),
        Hook::TransitionExecute => try_through(value, targets, try_executes::<S, S>()),
        Hook::Guard => (value, Ok(())),
        Hook::StateExit => value.try_exited(),
        Hook::TransitionExit => try_through(value, targets, try_exits::<S, S>()),
        Hook::Convert(to) => (TryTransition::<S>::transited(value, to), Ok(())),
    }
}

/// The error in a hook's result.
pub open spec fn failure<E>(result: Result<(), E>) -> Option<E> {
    match result {
        Ok(_) => None,
        Err(e) => Some(e),
    }
}

/// What hooks have made of a value, from the value and the result of the
/// last of them that ran.
pub open spec fn outcome<S, E>(end: (S, Result<(), E>)) -> Outcome<S, E> {
    Outcome { value: end.0, fault: failure(end.1) }
}

/// What a sequence of hooks, run from first to last, makes of the value.
/// No hook runs after one that has failed.
pub open spec fn try_apply<S: TryHooks<S>>(
    targets: Seq<usize>,
    hooks: Seq<Hook>,
    value: S,
) -> Outcome<S, <S as TryState>::Error>
    decreases hooks.len(),
{
    if hooks.len() == 0 {
        Outcome { value, fault: None }
    } else {
        let before = try_apply(targets, hooks.drop_last(), value);
        if before.fault is Some {
            before
        } else {
            outcome(try_effect(targets, hooks.last(), before.value))
        }
    }
}

/// A running machine with error handling.
pub struct TryInstance<S, E> {
    /// The place of the active state among the machine's states.
    pub active: int,
    /// Whether the active state's entry is still owed.
    pub pending: bool,
    /// The active state's value.
    pub value: S,
    /// The error that the active state is still to be handed.
    pub fault: Option<E>,
}

/// The value that the hooks of the next step start from: the active
/// state's value, once it was handed the error that is kept for it.
pub open spec fn handed<S: TryErrorState>(instance: TryInstance<S, <S as TryState>::Error>) -> S {
    match instance.fault {
        Some(e) => instance.value.consumed(e),
        None => instance.value,
    }
}

/// The places that the transitions which leave the active state lead to.
pub open spec fn try_edges<S, E>(machine: MachineView, instance: TryInstance<S, E>) -> Seq<usize> {
    machine.targets(instance.active)
}

/// The transition that the next step takes, by its rank among those that
/// leave the active state: none if a hook before the guards fails, else the
/// first whose guard fires.
pub open spec fn try_taken<S: TryHooks<S> + TryErrorState>(
    machine: MachineView,
    instance: TryInstance<S, <S as TryState>::Error>,
) -> Option<int> {
    let targets = try_edges(machine, instance);
    let before = try_apply(targets, opening(instance.pending, targets.len() > 0), handed(instance));
    if before.fault is Some {
        None
    } else {
        try_choice::<S, S>(before.value, targets, 0)
    }
}

/// Whether the next step fires a transition.
pub open spec fn try_fires<S: TryHooks<S> + TryErrorState>(
    machine: MachineView,
    instance: TryInstance<S, <S as TryState>::Error>,
) -> bool {
    try_taken(machine, instance) is Some
}

/// The place of the state that the next step sets out for, if a guard
/// fires.
pub open spec fn try_destination<S: TryHooks<S> + TryErrorState>(
    machine: MachineView,
    instance: TryInstance<S, <S as TryState>::Error>,
) -> usize {
    try_edges(machine, instance)[try_taken(machine, instance).unwrap()]
}

/// The hooks that the next step sets out to run, in their order.
pub open spec fn try_step_hooks<S: TryHooks<S> + TryErrorState>(
    machine: MachineView,
    instance: TryInstance<S, <S as TryState>::Error>,
) -> Seq<Hook> {
    if try_fires(machine, instance) {
        opening(instance.pending, true) + closing(try_destination(machine, instance))
    } else {
        opening(instance.pending, try_edges(machine, instance).len() > 0)
    }
}

/// What the next step makes of the value, and the error it reports.
pub open spec fn try_step_outcome<S: TryHooks<S> + TryErrorState>(
    machine: MachineView,
    instance: TryInstance<S, <S as TryState>::Error>,
) -> Outcome<S, <S as TryState>::Error> {
    try_apply(try_edges(machine, instance), try_step_hooks(machine, instance), handed(instance))
}

/// The machine after its next step. `error` is the place of the error
/// state.
pub open spec fn try_stepped<S: TryHooks<S> + TryErrorState>(
    machine: MachineView,
    error: int,
    instance: TryInstance<S, <S as TryState>::Error>,
) -> TryInstance<S, <S as TryState>::Error> {
    let outcome = try_step_outcome(machine, instance);
    if outcome.fault is Some {
        TryInstance { active: error, pending: true, value: outcome.value, fault: outcome.fault }
    } else {
        TryInstance {
            active: if try_fires(machine, instance) {
                try_destination(machine, instance) as int
            } else {
                instance.active
            },
            pending: try_fires(machine, instance),
            value: outcome.value,
            fault: None,
        }
    }
}

/// What stopping makes of the value, and the error it reports.
pub open spec fn try_stopped<S: TryHooks<S> + TryErrorState>(
    machine: MachineView,
    instance: TryInstance<S, <S as TryState>::Error>,
) -> Outcome<S, <S as TryState>::Error> {
    try_apply(
        try_edges(machine, instance),
        stopping(try_edges(machine, instance).len() > 0),
        handed(instance),
    )
}

/// One more hook at the end runs only if none has failed before it.
pub proof fn lemma_try_apply_push<S: TryHooks<S>>(
    targets: Seq<usize>,
    hooks: Seq<Hook>,
    hook: Hook,
    value: S,
)
    ensures
        try_apply(targets, hooks.push(hook), value) == (if try_apply(
            targets,
            hooks,
            value,
        ).fault is Some {
            try_apply(targets, hooks, value)
        } else {
            outcome(try_effect(targets, hook, try_apply(targets, hooks, value).value))
        }),
{
    assert(hooks.push(hook).drop_last() == hooks);
}

/// Running two sequences one after the other is running their
/// concatenation: the second runs only if no hook of the first has failed.
pub proof fn lemma_try_apply_concat<S: TryHooks<S>>(
    targets: Seq<usize>,
    first: Seq<Hook>,
    second: Seq<Hook>,
    value: S,
)
    ensures
        try_apply(targets, first + second, value) == (if try_apply(
            targets,
            first,
            value,
        ).fault is Some {
            try_apply(targets, first, value)
        } else {
            try_apply(targets, second, try_apply(targets, first, value).value)
        }),
    decreases second.len(),
{
    if second.len() == 0 {
        assert(first + second == first);
    } else {
        assert((first + second).drop_last() == first + second.drop_last());
        lemma_try_apply_concat(targets, first, second.drop_last(), value);
    }
}

/// Once a hook has failed, the hooks behind it change nothing.
pub proof fn lemma_fault_ends_hooks<S: TryHooks<S>>(
    targets: Seq<usize>,
    hooks: Seq<Hook>,
    run: int,
    value: S,
)
    requires
        0 <= run <= hooks.len(),
        try_apply(targets, hooks.take(run), value).fault is Some,
    ensures
        try_apply(targets, hooks, value) == try_apply(targets, hooks.take(run), value),
    decreases hooks.len() - run,
{
    if run == hooks.len() {
        assert(hooks.take(run) == hooks);
    } else {
        assert(hooks.drop_last().take(run) == hooks.take(run));
        lemma_fault_ends_hooks(targets, hooks.drop_last(), run, value);
    }
}

/// A step that reports an error leaves the machine in its error state,
/// with that state's entry owed and the error kept for it. The next step
/// hands the state the error before it runs any hook.
pub proof fn lemma_fault_reaches_error_state<S: TryHooks<S> + TryErrorState>(
    machine: MachineView,
    error: int,
    instance: TryInstance<S, <S as TryState>::Error>,
)
    requires
        try_step_outcome(machine, instance).fault is Some,
    ensures
        try_stepped(machine, error, instance).active == error,
        try_stepped(machine, error, instance).pending,
        try_stepped(machine, error, instance).fault == try_step_outcome(machine, instance).fault,
        handed(try_stepped(machine, error, instance)) == try_step_outcome(
            machine,
            instance,
        ).value.consumed(try_step_outcome(machine, instance).fault.unwrap()),
{
}

/// A step in which no hook fails changes the active state only by a
/// transition that the graph declares, and keeps no error.
pub proof fn lemma_try_variant_changes_by_transition<S: TryHooks<S> + TryErrorState>(
    machine: MachineView,
    error: int,
    instance: TryInstance<S, <S as TryState>::Error>,
)
    requires
        try_step_outcome(machine, instance).fault is None,
        try_stepped(machine, error, instance).active != instance.active,
    ensures
        try_stepped(machine, error, instance).fault is None,
        try_fires(machine, instance),
        0 <= try_taken(machine, instance).unwrap() < machine.targets(instance.active).len(),
        machine.targets(instance.active)[try_taken(machine, instance).unwrap()] == try_stepped(
            machine,
            error,
            instance,
        ).active,
{
    let targets = try_edges(machine, instance);
    let before = try_apply(targets, opening(instance.pending, targets.len() > 0), handed(instance));
    lemma_try_choice::<S, S>(before.value, targets, 0);
}

/// The hooks that a step sets out to run hold the state's entry once if it
/// is owed and not at all if it is not, and the state's exit once if a
/// guard fires and not at all if none does. A hook that fails cuts the step
/// short, so no hook runs more often than this.
pub proof fn lemma_try_step_entry_and_exit<S: TryHooks<S> + TryErrorState>(
    machine: MachineView,
    error: int,
    instance: TryInstance<S, <S as TryState>::Error>,
)
    ensures
        count(try_step_hooks(machine, instance), Hook::StateEntry) == if instance.pending {
            1nat
        } else {
            0nat
        },
        instance.pending ==> try_step_hooks(machine, instance)[0] == Hook::StateEntry,
        count(try_step_hooks(machine, instance), Hook::StateExit) == if try_fires(
            machine,
            instance,
        ) {
            1nat
        } else {
            0nat
        },
        try_step_outcome(machine, instance).fault is None ==> try_stepped(
            machine,
            error,
            instance,
        ).pending == try_fires(machine, instance),
        try_step_outcome(machine, instance).fault is Some ==> try_stepped(
            machine,
            error,
            instance,
        ).pending,
{
    let to = try_destination(machine, instance);
    lemma_part_counts(instance.pending, true, to);
    lemma_part_counts(instance.pending, false, to);
    lemma_count_concat(opening(instance.pending, true), closing(to), Hook::StateEntry);
    lemma_count_concat(opening(instance.pending, true), closing(to), Hook::StateExit);
}

/// The machine after `steps` steps.
pub open spec fn try_run<S: TryHooks<S> + TryErrorState>(
    machine: MachineView,
    error: int,
    instance: TryInstance<S, <S as TryState>::Error>,
    steps: nat,
) -> TryInstance<S, <S as TryState>::Error>
    decreases steps,
{
    if steps == 0 {
        instance
    } else {
        try_stepped(machine, error, try_run(machine, error, instance, (steps - 1) as nat))
    }
}

/// The hooks that `steps` steps set out to run, in their order.
pub open spec fn try_run_hooks<S: TryHooks<S> + TryErrorState>(
    machine: MachineView,
    error: int,
    instance: TryInstance<S, <S as TryState>::Error>,
    steps: nat,
) -> Seq<Hook>
    decreases steps,
{
    if steps == 0 {
        Seq::empty()
    } else {
        try_run_hooks(machine, error, instance, (steps - 1) as nat) + try_step_hooks(
            machine,
            try_run(machine, error, instance, (steps - 1) as nat),
        )
    }
}

/// Whether none of the first `steps` steps fires a transition or reports
/// an error.
pub open spec fn try_quiet<S: TryHooks<S> + TryErrorState>(
    machine: MachineView,
    error: int,
    instance: TryInstance<S, <S as TryState>::Error>,
    steps: nat,
) -> bool {
    forall|k: nat|
        k < steps ==> !try_fires(machine, #[trigger] try_run(machine, error, instance, k))
            && try_step_outcome(machine, try_run(machine, error, instance, k)).fault is None
}

/// One activation of a state in a machine with error handling: from the
/// step that owes its entry up to the first step that fires or fails. The
/// steps of the activation set out to run the state's entry exactly once,
/// as the first hook of all, and its exit exactly once if the last step
/// fires, and not at all before.
pub proof fn lemma_try_activation_entry_and_exit<S: TryHooks<S> + TryErrorState>(
    machine: MachineView,
    error: int,
    instance: TryInstance<S, <S as TryState>::Error>,
    steps: nat,
)
    requires
        instance.pending,
        steps >= 1,
        try_quiet(machine, error, instance, (steps - 1) as nat),
    ensures
        count(try_run_hooks(machine, error, instance, steps), Hook::StateEntry) == 1,
        try_run_hooks(machine, error, instance, steps)[0] == Hook::StateEntry,
        count(try_run_hooks(machine, error, instance, steps), Hook::StateExit) == if try_fires(
            machine,
            try_run(machine, error, instance, (steps - 1) as nat),
        ) {
            1nat
        } else {
            0nat
        },
        steps >= 2 ==> !try_run(machine, error, instance, (steps - 1) as nat).pending,
    decreases steps,
{
    let before = try_run(machine, error, instance, (steps - 1) as nat);
    let earlier = try_run_hooks(machine, error, instance, (steps - 1) as nat);
    let last = try_step_hooks(machine, before);
    lemma_try_step_entry_and_exit(machine, error, before);
    lemma_count_concat(earlier, last, Hook::StateEntry);
    lemma_count_concat(earlier, last, Hook::StateExit);
    if steps == 1 {
        assert(try_run(machine, error, instance, 0) == instance);
        assert(earlier == Seq::<Hook>::empty());
        assert(earlier + last == last);
    } else {
        let first = try_run(machine, error, instance, (steps - 2) as nat);
        assert(try_quiet(machine, error, instance, (steps - 2) as nat)) by {
            assert forall|k: nat| k < (steps - 2) as nat implies !try_fires(
                machine,
                #[trigger] try_run(machine, error, instance, k),
            ) && try_step_outcome(machine, try_run(machine, error, instance, k)).fault is None by {}
        }
        lemma_try_activation_entry_and_exit(machine, error, instance, (steps - 1) as nat);
        assert(!try_fires(machine, first) && try_step_outcome(machine, first).fault is None);
        lemma_try_step_entry_and_exit(machine, error, first);
        assert(earlier.len() > 0) by {
            lemma_part_counts(true, true, 0);
        }
        assert((earlier + last)[0] == earlier[0]);
    }
}

/// What the hooks before the guards make of a value, for a state that the
/// transitions to `targets` leave.
pub proof fn lemma_try_opening_applied<S: TryHooks<S>>(
    targets: Seq<usize>,
    pending: bool,
    value: S,
)
    ensures
        try_apply(targets, opening(pending, targets.len() > 0), value) == outcome(
            try_before_guard::<S, S>(pending, targets, value),
        ),
        try_apply(targets, opening(pending, true), value) == outcome(
            try_before_guard::<S, S>(pending, targets, value),
        ),
{
    let none = Seq::<Hook>::empty();
    let first = none.push(Hook::StateEntry);
    let both = first.push(Hook::TransitionEntry);
    let execute = none.push(Hook::StateExecute);
    let executes = execute.push(Hook::TransitionExecute).push(Hook::Guard);
    assert(opening(pending, true) == (if pending {
        both
    } else {
        none
    }) + executes);
    assert(opening(pending, false) == (if pending {
        first
    } else {
        none
    }) + execute);
    lemma_try_apply_concat(targets, both, executes, value);
    lemma_try_apply_concat(targets, none, executes, value);
    lemma_try_apply_concat(targets, first, execute, value);
    lemma_try_apply_concat(targets, none, execute, value);
    lemma_try_apply_push(targets, none, Hook::StateEntry, value);
    lemma_try_apply_push(targets, first, Hook::TransitionEntry, value);
    assert forall|start: S| #[trigger]
        try_apply(targets, executes, start) == outcome(
            crate::try_steps::chain(
                start.try_executed(),
                |v: S| try_through(v, targets, try_executes::<S, S>()),
            ),
        ) by {
        lemma_try_apply_push(targets, none, Hook::StateExecute, start);
        lemma_try_apply_push(targets, execute, Hook::TransitionExecute, start);
        lemma_try_apply_push(targets, execute.push(Hook::TransitionExecute), Hook::Guard, start);
    }
    assert forall|start: S| #[trigger]
        try_apply(targets, execute, start) == outcome(start.try_executed()) by {
        lemma_try_apply_push(targets, none, Hook::StateExecute, start);
    }
    if targets.len() == 0 {
        assert forall|start: S|
            #![trigger try_through(start, targets, try_executes::<S, S>())]
            try_through(start, targets, try_executes::<S, S>()) == (
                start,
                Ok::<(), <S as TryState>::Error>(()),
            ) && try_through(start, targets, try_entries::<S, S>()) == (
                start,
                Ok::<(), <S as TryState>::Error>(()),
            ) by {}
    }
}

/// A step of the machine is a step of its active state, once the state was
/// handed the error that is kept for it. The hooks run in the order of a
/// step without error handling, and none runs after one that has failed.
pub proof fn lemma_try_step_hook_by_hook<S: TryHooks<S> + TryErrorState>(
    machine: MachineView,
    error: int,
    instance: TryInstance<S, <S as TryState>::Error>,
)
    ensures
        match try_step_spec::<S, S>(
            instance.pending,
            try_edges(machine, instance),
            handed(instance),
        ) {
            TryStepped::Remain(value) => try_step_outcome(machine, instance) == (Outcome::<
                S,
                <S as TryState>::Error,
            > { value, fault: None }) && try_stepped(machine, error, instance) == (TryInstance::<
                S,
                <S as TryState>::Error,
            > { active: instance.active, pending: false, value, fault: None }),
            TryStepped::Transit(to, value) => try_step_outcome(machine, instance) == (Outcome::<
                S,
                <S as TryState>::Error,
            > { value, fault: None }) && try_stepped(machine, error, instance) == (TryInstance::<
                S,
                <S as TryState>::Error,
            > { active: to as int, pending: true, value, fault: None }),
            TryStepped::Fault(value, e) => try_step_outcome(machine, instance) == (Outcome::<
                S,
                <S as TryState>::Error,
            > { value, fault: Some(e) }) && try_stepped(machine, error, instance) == (
            TryInstance::<S, <S as TryState>::Error> {
                active: error,
                pending: true,
                value,
                fault: Some(e),
            }),
        },
        try_stopped(machine, instance) == outcome(
            try_after_exits::<S, S>(try_edges(machine, instance), handed(instance)),
        ),
{
    let none = Seq::<Hook>::empty();
    let targets = try_edges(machine, instance);
    let value = handed(instance);
    let exit = none.push(Hook::StateExit);
    let exits = exit.push(Hook::TransitionExit);
    lemma_try_opening_applied(targets, instance.pending, value);
    let asked = try_before_guard::<S, S>(instance.pending, targets, value);
    lemma_try_choice::<S, S>(asked.0, targets, 0);
    assert forall|start: S| #[trigger]
        try_apply(targets, exits, start) == outcome(try_after_exits::<S, S>(targets, start)) by {
        lemma_try_apply_push(targets, none, Hook::StateExit, start);
        lemma_try_apply_push(targets, exit, Hook::TransitionExit, start);
    }
    assert forall|start: S| #[trigger]
        try_apply(targets, exit, start) == outcome(start.try_exited()) by {
        lemma_try_apply_push(targets, none, Hook::StateExit, start);
    }
    assert forall|start: S, to: usize| #[trigger]
        try_apply(targets, closing(to), start) == (if try_after_exits::<S, S>(
            targets,
            start,
        ).1 is Err {
            outcome(try_after_exits::<S, S>(targets, start))
        } else {
            Outcome::<S, <S as TryState>::Error> {
                value: TryTransition::<S>::transited(
                    try_after_exits::<S, S>(targets, start).0,
                    to,
                ),
                fault: None,
            }
        }) by {
        assert(closing(to) == exits.push(Hook::Convert(to)));
        lemma_try_apply_push(targets, exits, Hook::Convert(to), start);
    }
    assert(stopping(true) == exits);
    assert(stopping(false) == exit);
    if targets.len() == 0 {
        assert(try_through(value.try_exited().0, targets, try_exits::<S, S>()) == (
            value.try_exited().0,
            Ok::<(), <S as TryState>::Error>(()),
        ));
    }
    if try_fires(machine, instance) {
        lemma_try_apply_concat(
            targets,
            opening(instance.pending, true),
            closing(try_destination(machine, instance)),
            value,
        );
    }
}

/// Whether the hooks of `S` that may fail are its hooks that cannot, and
/// never fail.
pub open spec fn never_fails<S: Transition<S> + TryHooks<S>>() -> bool {
    &&& forall|v: S| #[trigger] v.try_entered() == (v.entered(), fine::<S>())
    &&& forall|v: S| #[trigger] v.try_executed() == (v.executed(), fine::<S>())
    &&& forall|v: S| #[trigger] v.try_exited() == (v.exited(), fine::<S>())
    &&& forall|v: S, to: usize| #[trigger]
        v.transition_try_entered(to) == (v.transition_entered(to), fine::<S>())
    &&& forall|v: S, to: usize| #[trigger]
        v.transition_try_executed(to) == (v.transition_executed(to), fine::<S>())
    &&& forall|v: S, to: usize| #[trigger]
        v.transition_try_exited(to) == (v.transition_exited(to), fine::<S>())
    &&& forall|v: S, to: usize| #[trigger]
        <S as TryTransition<S>>::guarded(&v, to) == <S as Transition<S>>::guarded(&v, to)
    &&& forall|v: S, to: usize| #[trigger]
        <S as TryTransition<S>>::transited(v, to) == <S as Transition<S>>::transited(v, to)
}

/// The result of a hook that has not failed.
pub open spec fn fine<S: TryState>() -> Result<(), <S as TryState>::Error> {
    Ok(())
}

/// A running machine without error handling, seen as one with error
/// handling that keeps no error.
pub open spec fn lifted<S: TryState>(instance: Instance<S>) -> TryInstance<
    S,
    <S as TryState>::Error,
> {
    TryInstance {
        active: instance.active,
        pending: instance.pending,
        value: instance.value,
        fault: None,
    }
}

/// Hooks of the transitions that never fail make of a value what the hooks
/// that cannot fail make of it, and the same guard is the first to fire.
pub proof fn lemma_rounds_without_fault<S: Transition<S> + TryHooks<S>>(
    targets: Seq<usize>,
    value: S,
)
    requires
        never_fails::<S>(),
    ensures
        try_through(value, targets, try_entries::<S, S>()) == (
            through(value, targets, entries::<S, S>()),
            Ok::<(), <S as TryState>::Error>(()),
        ),
        try_through(value, targets, try_executes::<S, S>()) == (
            through(value, targets, executes::<S, S>()),
            Ok::<(), <S as TryState>::Error>(()),
        ),
        try_through(value, targets, try_exits::<S, S>()) == (
            through(value, targets, exits::<S, S>()),
            Ok::<(), <S as TryState>::Error>(()),
        ),
    decreases targets.len(),
{
    if targets.len() > 0 {
        lemma_rounds_without_fault(targets.drop_last(), value);
    }
}

/// Where no hook ever fails, the same guard is the first to fire in both
/// kinds of machine.
pub proof fn lemma_choice_agrees<S: Transition<S> + TryHooks<S>>(
    targets: Seq<usize>,
    value: S,
    from: int,
)
    requires
        never_fails::<S>(),
    ensures
        try_choice::<S, S>(value, targets, from) == choice::<S, S>(value, targets, from),
    decreases targets.len() - from,
{
    if 0 <= from < targets.len() {
        lemma_choice_agrees(targets, value, from + 1);
    }
}

/// Hooks that never fail make of a value what the hooks that cannot fail
/// make of it.
pub proof fn lemma_try_apply_without_fault<S: Transition<S> + TryHooks<S>>(
    targets: Seq<usize>,
    hooks: Seq<Hook>,
    value: S,
)
    requires
        never_fails::<S>(),
    ensures
        try_apply(targets, hooks, value) == (Outcome::<S, <S as TryState>::Error> {
            value: apply(targets, hooks, value),
            fault: None,
        }),
    decreases hooks.len(),
{
    if hooks.len() > 0 {
        lemma_try_apply_without_fault(targets, hooks.drop_last(), value);
        lemma_rounds_without_fault(targets, apply(targets, hooks.drop_last(), value));
    }
}

/// The two modes take the same steps: where no hook ever fails, a step of
/// the machine with error handling is the step of the machine without, and
/// reports no error.
pub proof fn lemma_modes_agree<S: Transition<S> + TryHooks<S> + TryErrorState>(
    machine: MachineView,
    error: int,
    instance: Instance<S>,
)
    requires
        never_fails::<S>(),
    ensures
        try_step_hooks(machine, lifted(instance)) == step_hooks(machine, instance),
        try_step_outcome(machine, lifted(instance)).fault is None,
        try_stepped(machine, error, lifted(instance)) == lifted(stepped(machine, instance)),
{
    let targets = machine.targets(instance.active);
    let start = opening(instance.pending, targets.len() > 0);
    lemma_try_apply_without_fault(targets, start, instance.value);
    lemma_choice_agrees(targets, apply(targets, start, instance.value), 0);
    lemma_try_apply_without_fault(targets, step_hooks(machine, instance), instance.value);
}

} // verus!
