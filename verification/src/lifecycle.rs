//! The lifecycle of a running machine, as a model.
//!
//! A running machine is an active state, a flag that says whether the
//! state's entry is still owed, and the state's value. A step runs a fixed
//! sequence of hooks on the value. This module says which sequence, what it
//! makes of the value, and what holds of every run.
//!
//! Several transitions may leave a state. Their entries, executes and exits
//! run for all of them, in the order in which they were declared. Their
//! guards are asked in that order, and the first that fires decides where
//! the machine goes.

use crate::machine::lemma_targets_declared;
use crate::machine::MachineView;
use crate::non_fallible::Transition;
use crate::steps::after_exits;
use crate::steps::before_guard;
use crate::steps::choice;
use crate::steps::entries;
use crate::steps::executes;
use crate::steps::exits;
use crate::steps::lemma_choice;
use crate::steps::step_spec;
use crate::steps::Stepped;
use crate::steps::through;
use vstd::prelude::*;

verus! {

/// One call that a step makes, or one round of calls: the hooks of the
/// transitions run once for every transition that leaves the state, in the
/// order in which the transitions were declared.
#[derive(Clone, Copy, Debug, PartialEq, Eq, Structural)]
pub enum Hook {
    /// The state's `entry`.
    StateEntry,
    /// The `entry` of every transition.
    TransitionEntry,
    /// The state's `execute`.
    StateExecute,
    /// The `execute` of every transition.
    TransitionExecute,
    /// The guards of the transitions, up to the first that fires.
    Guard,
    /// The state's `exit`.
    StateExit,
    /// The `exit` of every transition.
    TransitionExit,
    /// The conversion into the destination at this place.
    Convert(usize),
}

/// The hooks that every step runs, up to the guards. The entries run only
/// while they are owed, and the hooks of the transitions only where at
/// least one leaves the state.
pub open spec fn opening(pending: bool, edge: bool) -> Seq<Hook> {
    let entries = if !pending {
        Seq::empty()
    } else if edge {
        seq![Hook::StateEntry, Hook::TransitionEntry]
    } else {
        seq![Hook::StateEntry]
    };
    let executes = if edge {
        seq![Hook::StateExecute, Hook::TransitionExecute, Hook::Guard]
    } else {
        seq![Hook::StateExecute]
    };
    entries + executes
}

/// The hooks that a step runs after a guard that fires, for the
/// transition to the state at place `to`.
pub open spec fn closing(to: usize) -> Seq<Hook> {
    seq![Hook::StateExit, Hook::TransitionExit, Hook::Convert(to)]
}

/// The hooks that stopping runs.
pub open spec fn stopping(edge: bool) -> Seq<Hook> {
    if edge {
        seq![Hook::StateExit, Hook::TransitionExit]
    } else {
        seq![Hook::StateExit]
    }
}

/// What one hook makes of the value of a state that the transitions to
/// `targets` leave.
pub open spec fn effect<S: Transition<S>>(targets: Seq<usize>, hook: Hook, value: S) -> S {
    match hook {
        Hook::StateEntry => value.entered(),
        Hook::TransitionEntry => through(value, targets, entries::<S, S>()),
        Hook::StateExecute => value.executed(),
        Hook::TransitionExecute => through(value, targets, executes::<S, S>()),
        Hook::Guard => value,
        Hook::StateExit => value.exited(),
        Hook::TransitionExit => through(value, targets, exits::<S, S>()),
        Hook::Convert(to) => Transition::<S>::transited(value, to),
    }
}

/// What a sequence of hooks, run from first to last, makes of the value.
pub open spec fn apply<S: Transition<S>>(targets: Seq<usize>, hooks: Seq<Hook>, value: S) -> S
    decreases hooks.len(),
{
    if hooks.len() == 0 {
        value
    } else {
        effect(targets, hooks.last(), apply(targets, hooks.drop_last(), value))
    }
}

/// A running machine.
pub struct Instance<S> {
    /// The place of the active state among the machine's states.
    pub active: int,
    /// Whether the active state's entry is still owed.
    pub pending: bool,
    /// The active state's value.
    pub value: S,
}

/// The places that the transitions which leave the active state lead to.
pub open spec fn edges<S>(machine: MachineView, instance: Instance<S>) -> Seq<usize> {
    machine.targets(instance.active)
}

/// Whether a transition leaves the active state.
pub open spec fn has_edge<S>(machine: MachineView, instance: Instance<S>) -> bool {
    edges(machine, instance).len() > 0
}

/// The transition that the next step takes, by its rank among those that
/// leave the active state: the first whose guard fires on the value as the
/// hooks before the guards have left it.
pub open spec fn taken<S: Transition<S>>(machine: MachineView, instance: Instance<S>) -> Option<
    int,
> {
    choice::<S, S>(
        apply(
            edges(machine, instance),
            opening(instance.pending, has_edge(machine, instance)),
            instance.value,
        ),
        edges(machine, instance),
        0,
    )
}

/// Whether the next step fires a transition.
pub open spec fn fires<S: Transition<S>>(machine: MachineView, instance: Instance<S>) -> bool {
    taken(machine, instance) is Some
}

/// The place of the state that the next step leads to, if it fires a
/// transition.
pub open spec fn destination<S: Transition<S>>(
    machine: MachineView,
    instance: Instance<S>,
) -> usize {
    edges(machine, instance)[taken(machine, instance).unwrap()]
}

/// The hooks that the next step runs, in their order.
pub open spec fn step_hooks<S: Transition<S>>(machine: MachineView, instance: Instance<S>) -> Seq<
    Hook,
> {
    if fires(machine, instance) {
        opening(instance.pending, true) + closing(destination(machine, instance))
    } else {
        opening(instance.pending, has_edge(machine, instance))
    }
}

/// The machine after its next step.
pub open spec fn stepped<S: Transition<S>>(machine: MachineView, instance: Instance<S>) -> Instance<
    S,
> {
    Instance {
        active: if fires(machine, instance) {
            destination(machine, instance) as int
        } else {
            instance.active
        },
        pending: fires(machine, instance),
        value: apply(edges(machine, instance), step_hooks(machine, instance), instance.value),
    }
}

/// The value that stopping hands out.
pub open spec fn stopped<S: Transition<S>>(machine: MachineView, instance: Instance<S>) -> S {
    apply(edges(machine, instance), stopping(has_edge(machine, instance)), instance.value)
}

/// The machine after `steps` steps.
pub open spec fn run<S: Transition<S>>(
    machine: MachineView,
    instance: Instance<S>,
    steps: nat,
) -> Instance<S>
    decreases steps,
{
    if steps == 0 {
        instance
    } else {
        stepped(machine, run(machine, instance, (steps - 1) as nat))
    }
}

/// The hooks that `steps` steps run, in their order.
pub open spec fn run_hooks<S: Transition<S>>(
    machine: MachineView,
    instance: Instance<S>,
    steps: nat,
) -> Seq<Hook>
    decreases steps,
{
    if steps == 0 {
        Seq::empty()
    } else {
        run_hooks(machine, instance, (steps - 1) as nat) + step_hooks(
            machine,
            run(machine, instance, (steps - 1) as nat),
        )
    }
}

/// How often `hook` occurs in `hooks`.
pub open spec fn count(hooks: Seq<Hook>, hook: Hook) -> nat
    decreases hooks.len(),
{
    if hooks.len() == 0 {
        0
    } else {
        count(hooks.drop_last(), hook) + if hooks.last() == hook {
            1nat
        } else {
            0nat
        }
    }
}

/// One more hook at the end is one more effect on the value.
pub proof fn lemma_apply_push<S: Transition<S>>(
    targets: Seq<usize>,
    hooks: Seq<Hook>,
    hook: Hook,
    value: S,
)
    ensures
        apply(targets, hooks.push(hook), value) == effect(
            targets,
            hook,
            apply(targets, hooks, value),
        ),
{
    assert(hooks.push(hook).drop_last() == hooks);
}

/// Running two sequences one after the other is running their
/// concatenation.
pub proof fn lemma_apply_concat<S: Transition<S>>(
    targets: Seq<usize>,
    first: Seq<Hook>,
    second: Seq<Hook>,
    value: S,
)
    ensures
        apply(targets, first + second, value) == apply(
            targets,
            second,
            apply(targets, first, value),
        ),
    decreases second.len(),
{
    if second.len() == 0 {
        assert(first + second == first);
    } else {
        assert((first + second).drop_last() == first + second.drop_last());
        lemma_apply_concat(targets, first, second.drop_last(), value);
    }
}

/// Counting in a concatenation is counting in both parts.
pub proof fn lemma_count_concat(first: Seq<Hook>, second: Seq<Hook>, hook: Hook)
    ensures
        count(first + second, hook) == count(first, hook) + count(second, hook),
    decreases second.len(),
{
    if second.len() == 0 {
        assert(first + second == first);
    } else {
        assert((first + second).drop_last() == first + second.drop_last());
        lemma_count_concat(first, second.drop_last(), hook);
    }
}

/// One more hook at the end counts once if it is the hook that is counted.
pub proof fn lemma_count_push(hooks: Seq<Hook>, last: Hook, hook: Hook)
    ensures
        count(hooks.push(last), hook) == count(hooks, hook) + if last == hook {
            1nat
        } else {
            0nat
        },
{
    assert(hooks.push(last).drop_last() == hooks);
}

/// How often the state's entry or exit occurs in the parts of a step and
/// in stopping.
pub proof fn lemma_part_counts_of(pending: bool, edge: bool, to: usize, hook: Hook)
    requires
        hook == Hook::StateEntry || hook == Hook::StateExit,
    ensures
        count(opening(pending, edge), hook) == if pending && hook == Hook::StateEntry {
            1nat
        } else {
            0nat
        },
        count(closing(to), hook) == if hook == Hook::StateExit {
            1nat
        } else {
            0nat
        },
        count(stopping(edge), hook) == if hook == Hook::StateExit {
            1nat
        } else {
            0nat
        },
{
    let none = Seq::<Hook>::empty();
    let entries = if !pending {
        none
    } else if edge {
        none.push(Hook::StateEntry).push(Hook::TransitionEntry)
    } else {
        none.push(Hook::StateEntry)
    };
    let executes = if edge {
        none.push(Hook::StateExecute).push(Hook::TransitionExecute).push(Hook::Guard)
    } else {
        none.push(Hook::StateExecute)
    };
    assert(opening(pending, edge) == entries + executes);
    assert(closing(to) == none.push(Hook::StateExit).push(Hook::TransitionExit).push(
        Hook::Convert(to),
    ));
    assert(stopping(edge) == if edge {
        none.push(Hook::StateExit).push(Hook::TransitionExit)
    } else {
        none.push(Hook::StateExit)
    });
    lemma_count_concat(entries, executes, hook);
    lemma_count_push(none, Hook::StateEntry, hook);
    lemma_count_push(none.push(Hook::StateEntry), Hook::TransitionEntry, hook);
    lemma_count_push(none, Hook::StateExecute, hook);
    lemma_count_push(none.push(Hook::StateExecute), Hook::TransitionExecute, hook);
    lemma_count_push(
        none.push(Hook::StateExecute).push(Hook::TransitionExecute),
        Hook::Guard,
        hook,
    );
    lemma_count_push(none, Hook::StateExit, hook);
    lemma_count_push(none.push(Hook::StateExit), Hook::TransitionExit, hook);
    lemma_count_push(
        none.push(Hook::StateExit).push(Hook::TransitionExit),
        Hook::Convert(to),
        hook,
    );
}

/// How often the state's entry and exit occur in the parts of a step and in
/// stopping.
pub proof fn lemma_part_counts(pending: bool, edge: bool, to: usize)
    ensures
        count(opening(pending, edge), Hook::StateEntry) == if pending {
            1nat
        } else {
            0nat
        },
        count(opening(pending, edge), Hook::StateExit) == 0,
        count(closing(to), Hook::StateEntry) == 0,
        count(closing(to), Hook::StateExit) == 1,
        count(stopping(edge), Hook::StateEntry) == 0,
        count(stopping(edge), Hook::StateExit) == 1,
{
    lemma_part_counts_of(pending, edge, to, Hook::StateEntry);
    lemma_part_counts_of(pending, edge, to, Hook::StateExit);
}

/// A state that no transition leaves stays the active state, however many
/// steps are run.
pub proof fn lemma_without_transition_variant_stays<S: Transition<S>>(
    machine: MachineView,
    instance: Instance<S>,
    steps: nat,
)
    requires
        machine.targets(instance.active).len() == 0,
    ensures
        run(machine, instance, steps).active == instance.active,
    decreases steps,
{
    if steps > 0 {
        lemma_without_transition_variant_stays(machine, instance, (steps - 1) as nat);
    }
}

/// The active state changes only by a transition that the graph declares:
/// where a step changes it, a transition leaves the old state for the new
/// one, and its guard has fired.
pub proof fn lemma_variant_changes_by_transition<S: Transition<S>>(
    machine: MachineView,
    instance: Instance<S>,
)
    requires
        stepped(machine, instance).active != instance.active,
    ensures
        fires(machine, instance),
        0 <= taken(machine, instance).unwrap() < machine.targets(instance.active).len(),
        machine.targets(instance.active)[taken(machine, instance).unwrap()] == stepped(
            machine,
            instance,
        ).active,
{
    lemma_first_guard_wins(machine, instance);
}

/// The guards are asked in the order in which the transitions were
/// declared, and the first that fires wins: the guard of the transition
/// that is taken fires on the value as the hooks before the guards have left
/// it, and the guard of no transition before it does.
pub proof fn lemma_first_guard_wins<S: Transition<S>>(machine: MachineView, instance: Instance<S>)
    ensures
        match taken(machine, instance) {
            Some(k) => 0 <= k < edges(machine, instance).len() && Transition::<S>::guarded(
                &asked(machine, instance),
                edges(machine, instance)[k],
            ).fires() && forall|j: int|
                0 <= j < k ==> !Transition::<S>::guarded(
                    &asked(machine, instance),
                    #[trigger] edges(machine, instance)[j],
                ).fires(),
            None => forall|j: int|
                0 <= j < edges(machine, instance).len() ==> !Transition::<S>::guarded(
                    &asked(machine, instance),
                    #[trigger] edges(machine, instance)[j],
                ).fires(),
        },
{
    lemma_opening_applied(edges(machine, instance), instance.pending, instance.value);
    lemma_choice::<S, S>(asked(machine, instance), edges(machine, instance), 0);
}

/// In a valid graph a step leaves the active state among the graph's
/// states.
pub proof fn lemma_step_stays_declared<S: Transition<S>>(
    machine: MachineView,
    instance: Instance<S>,
)
    requires
        machine.wf(),
        0 <= instance.active < machine.states.len(),
    ensures
        0 <= stepped(machine, instance).active < machine.states.len(),
{
    lemma_targets_declared(machine.states, machine.transitions, instance.active);
    lemma_first_guard_wins(machine, instance);
}

/// The guards are asked only where a transition leaves the active state,
/// and then right after the state's execute and the transitions' executes
/// of the same step.
pub proof fn lemma_guard_follows_execute<S: Transition<S>>(
    machine: MachineView,
    instance: Instance<S>,
    i: int,
)
    requires
        0 <= i < step_hooks(machine, instance).len(),
        step_hooks(machine, instance)[i] == Hook::Guard,
    ensures
        has_edge(machine, instance),
        i >= 2,
        step_hooks(machine, instance)[i - 2] == Hook::StateExecute,
        step_hooks(machine, instance)[i - 1] == Hook::TransitionExecute,
{
    lemma_first_guard_wins(machine, instance);
}

/// Within one step the state's entry runs once if it is owed and not at
/// all if it is not, and it runs first. The state's exit runs once if the
/// step fires a transition and not at all if it does not, and only the
/// transitions' exits and the conversion follow it. The entry is owed again
/// exactly after a step that has fired.
pub proof fn lemma_step_entry_and_exit<S: Transition<S>>(
    machine: MachineView,
    instance: Instance<S>,
)
    ensures
        count(step_hooks(machine, instance), Hook::StateEntry) == if instance.pending {
            1nat
        } else {
            0nat
        },
        instance.pending ==> step_hooks(machine, instance)[0] == Hook::StateEntry,
        count(step_hooks(machine, instance), Hook::StateExit) == if fires(machine, instance) {
            1nat
        } else {
            0nat
        },
        fires(machine, instance) ==> step_hooks(machine, instance).len() >= 3 && step_hooks(
            machine,
            instance,
        ).skip(step_hooks(machine, instance).len() - 3) == closing(
            destination(machine, instance),
        ),
        stepped(machine, instance).pending == fires(machine, instance),
{
    let to = destination(machine, instance);
    lemma_part_counts(instance.pending, true, to);
    lemma_part_counts(instance.pending, false, to);
    lemma_count_concat(opening(instance.pending, true), closing(to), Hook::StateEntry);
    lemma_count_concat(opening(instance.pending, true), closing(to), Hook::StateExit);
}

/// Whether none of the first `steps` steps fires a transition.
pub open spec fn quiet<S: Transition<S>>(
    machine: MachineView,
    instance: Instance<S>,
    steps: nat,
) -> bool {
    forall|k: nat| k < steps ==> !fires(machine, #[trigger] run(machine, instance, k))
}

/// One activation of a state: from the step that owes its entry to the
/// first step that fires, or for as long as none does. Over all of its
/// steps the state's entry runs exactly once, as the first hook of all. The
/// state's exit runs exactly once if the last step fires, as one of the
/// last three hooks of all, and not at all before.
pub proof fn lemma_activation_entry_and_exit<S: Transition<S>>(
    machine: MachineView,
    instance: Instance<S>,
    steps: nat,
)
    requires
        instance.pending,
        steps >= 1,
        quiet(machine, instance, (steps - 1) as nat),
    ensures
        count(run_hooks(machine, instance, steps), Hook::StateEntry) == 1,
        run_hooks(machine, instance, steps)[0] == Hook::StateEntry,
        count(run_hooks(machine, instance, steps), Hook::StateExit) == if fires(
            machine,
            run(machine, instance, (steps - 1) as nat),
        ) {
            1nat
        } else {
            0nat
        },
        run(machine, instance, steps).pending == fires(
            machine,
            run(machine, instance, (steps - 1) as nat),
        ),
        steps >= 2 ==> !run(machine, instance, (steps - 1) as nat).pending,
    decreases steps,
{
    let before = run(machine, instance, (steps - 1) as nat);
    let earlier = run_hooks(machine, instance, (steps - 1) as nat);
    let last = step_hooks(machine, before);
    lemma_step_entry_and_exit(machine, before);
    lemma_count_concat(earlier, last, Hook::StateEntry);
    lemma_count_concat(earlier, last, Hook::StateExit);
    if steps == 1 {
        assert(run(machine, instance, 0) == instance);
        assert(earlier == Seq::<Hook>::empty());
        assert(earlier + last == last);
    } else {
        assert(quiet(machine, instance, (steps - 2) as nat)) by {
            assert forall|k: nat| k < (steps - 2) as nat implies !fires(
                machine,
                #[trigger] run(machine, instance, k),
            ) by {}
        }
        lemma_activation_entry_and_exit(machine, instance, (steps - 1) as nat);
        assert(!fires(machine, run(machine, instance, (steps - 2) as nat)));
        assert(earlier.len() > 0) by {
            lemma_part_counts(true, true, 0);
        }
        assert((earlier + last)[0] == earlier[0]);
    }
}

/// Stopping runs the state's exit exactly once, as its first hook, and no
/// entry.
pub proof fn lemma_stop_exits_once(edge: bool)
    ensures
        count(stopping(edge), Hook::StateExit) == 1,
        count(stopping(edge), Hook::StateEntry) == 0,
        stopping(edge)[0] == Hook::StateExit,
{
    lemma_part_counts(false, edge, 0);
}

/// An activation that ends by stopping: the state's entry is owed, some
/// steps follow of which none fires, and the machine is stopped. Over the
/// steps and the stopping the state's entry runs exactly once, and its exit
/// exactly once: as the first hook of the stopping, behind every hook of
/// the steps.
pub proof fn lemma_stopped_activation<S: Transition<S>>(
    machine: MachineView,
    instance: Instance<S>,
    steps: nat,
    edge: bool,
)
    requires
        instance.pending,
        steps >= 1,
        quiet(machine, instance, steps),
    ensures
        count(run_hooks(machine, instance, steps) + stopping(edge), Hook::StateEntry) == 1,
        count(run_hooks(machine, instance, steps) + stopping(edge), Hook::StateExit) == 1,
        count(run_hooks(machine, instance, steps), Hook::StateExit) == 0,
        (run_hooks(machine, instance, steps) + stopping(edge))[run_hooks(
            machine,
            instance,
            steps,
        ).len() as int] == Hook::StateExit,
{
    assert(quiet(machine, instance, (steps - 1) as nat)) by {
        assert forall|k: nat| k < (steps - 1) as nat implies !fires(
            machine,
            #[trigger] run(machine, instance, k),
        ) by {}
    }
    lemma_activation_entry_and_exit(machine, instance, steps);
    assert(!fires(machine, run(machine, instance, (steps - 1) as nat)));
    lemma_stop_exits_once(edge);
    lemma_count_concat(run_hooks(machine, instance, steps), stopping(edge), Hook::StateEntry);
    lemma_count_concat(run_hooks(machine, instance, steps), stopping(edge), Hook::StateExit);
}

/// What the hooks before the guards make of a value, for a state that the
/// transitions to `targets` leave.
pub proof fn lemma_opening_applied<S: Transition<S>>(targets: Seq<usize>, pending: bool, value: S)
    ensures
        apply(targets, opening(pending, targets.len() > 0), value) == before_guard::<S, S>(
            pending,
            targets,
            value,
        ),
        apply(targets, opening(pending, true), value) == before_guard::<S, S>(
            pending,
            targets,
            value,
        ),
{
    let none = Seq::<Hook>::empty();
    let first = none.push(Hook::StateEntry);
    let both = first.push(Hook::TransitionEntry);
    let execute = none.push(Hook::StateExecute);
    let executes = execute.push(Hook::TransitionExecute).push(Hook::Guard);
    assert(opening(pending, true) == (if pending {
        both
    } else {
        none
    }) + executes);
    assert(opening(pending, false) == (if pending {
        first
    } else {
        none
    }) + execute);
    lemma_apply_concat(targets, both, executes, value);
    lemma_apply_concat(targets, none, executes, value);
    lemma_apply_concat(targets, first, execute, value);
    lemma_apply_concat(targets, none, execute, value);
    lemma_apply_push(targets, none, Hook::StateEntry, value);
    lemma_apply_push(targets, first, Hook::TransitionEntry, value);
    assert forall|start: S| #[trigger]
        apply(targets, executes, start) == through(
            start.executed(),
            targets,
            crate::steps::executes::<S, S>(),
        ) by {
        lemma_apply_push(targets, none, Hook::StateExecute, start);
        lemma_apply_push(targets, execute, Hook::TransitionExecute, start);
        lemma_apply_push(targets, execute.push(Hook::TransitionExecute), Hook::Guard, start);
    }
    assert forall|start: S| #[trigger] apply(targets, execute, start) == start.executed() by {
        lemma_apply_push(targets, none, Hook::StateExecute, start);
    }
}

/// The value that the guards of the next step are asked about.
pub open spec fn asked<S: Transition<S>>(machine: MachineView, instance: Instance<S>) -> S {
    before_guard::<S, S>(instance.pending, edges(machine, instance), instance.value)
}

/// A step of the machine is a step of its active state: the entries run
/// first if they are owed, the state's before those of the transitions,
/// then the executes in the same order. Then the guards are asked about the
/// value as it stands, and if one fires the state's exit, the exits of the
/// transitions and the conversion follow in this order.
pub proof fn lemma_step_hook_by_hook<S: Transition<S>>(machine: MachineView, instance: Instance<S>)
    ensures
        taken(machine, instance) == choice::<S, S>(
            asked(machine, instance),
            edges(machine, instance),
            0,
        ),
        match step_spec::<S, S>(instance.pending, edges(machine, instance), instance.value) {
            Stepped::Remain(value) => !fires(machine, instance) && stepped(machine, instance)
                == (Instance { active: instance.active, pending: false, value }),
            Stepped::Transit(to, value) => fires(machine, instance) && stepped(machine, instance)
                == (Instance { active: to as int, pending: true, value }),
        },
        stopped(machine, instance) == after_exits::<S, S>(
            edges(machine, instance),
            instance.value,
        ),
{
    let none = Seq::<Hook>::empty();
    let targets = edges(machine, instance);
    let value = instance.value;
    lemma_opening_applied(targets, instance.pending, value);
    lemma_choice::<S, S>(asked(machine, instance), targets, 0);
    let exit = none.push(Hook::StateExit);
    assert forall|start: S, to: usize| #[trigger]
        apply(targets, closing(to), start) == Transition::<S>::transited(
            after_exits::<S, S>(targets, start),
            to,
        ) by {
        assert(closing(to) == exit.push(Hook::TransitionExit).push(Hook::Convert(to)));
        lemma_apply_push(targets, none, Hook::StateExit, start);
        lemma_apply_push(targets, exit, Hook::TransitionExit, start);
        lemma_apply_push(targets, exit.push(Hook::TransitionExit), Hook::Convert(to), start);
    }
    assert(stopping(true) == exit.push(Hook::TransitionExit));
    assert(stopping(false) == exit);
    lemma_apply_push(targets, none, Hook::StateExit, value);
    lemma_apply_push(targets, exit, Hook::TransitionExit, value);
    if fires(machine, instance) {
        lemma_apply_concat(
            targets,
            opening(instance.pending, true),
            closing(destination(machine, instance)),
            value,
        );
    }
}

} // verus!
