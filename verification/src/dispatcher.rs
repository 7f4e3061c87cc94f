//! The dispatcher of a machine without error handling.

use core::convert::Infallible;
use crate::contract::IsState;
use crate::contract::MessageError;
use crate::contract::PollMessage;
use crate::contract::PushMessage;
use crate::contract::ReceiveMessage;
use crate::contract::ReturnMessage;
use crate::contract::StateMachine;
use crate::error::DeclarationError;
use crate::lifecycle::Instance;
use crate::lifecycle::lemma_first_guard_wins;
use crate::lifecycle::lemma_step_hook_by_hook;
use crate::lifecycle::stepped;
use crate::lifecycle::stopped;
use crate::machine::Machine;
use crate::machine::MachineView;
use crate::non_fallible::Transition as Edge;
use crate::parsers::parsed_machine;
use crate::steps::step;
use crate::steps::Stepped;
use crate::steps::stop;
use crate::tagged::Tagged;
use crate::tagged::TaggedView;
use crate::types::State;
use vstd::prelude::*;

verus! {

/// What a dispatcher stands for: a graph, the place of the active state,
/// whether that state's entry is owed, and the state's value once the
/// machine is started.
pub struct DispatcherView<S> {
    /// The graph that is run.
    pub machine: MachineView,
    /// The place of the active state among the graph's states.
    pub active: int,
    /// Whether the active state's entry is owed.
    pub pending: bool,
    /// The active state's value, once the machine is started.
    pub slot: Option<S>,
}

impl<S> DispatcherView<S> {
    /// Whether the active state is one of the graph's.
    pub open spec fn wf(self) -> bool {
        self.machine.wf() && 0 <= self.active < self.machine.states.len()
    }

    /// Whether a state value is in place.
    pub open spec fn started(self) -> bool {
        self.slot is Some
    }

    /// The running machine.
    pub open spec fn instance(self) -> Instance<S> {
        Instance { active: self.active, pending: self.pending, value: self.slot.unwrap() }
    }

    /// The same dispatcher with the running machine `instance`.
    pub open spec fn resumed(self, instance: Instance<S>) -> DispatcherView<S> {
        DispatcherView {
            machine: self.machine,
            active: instance.active,
            pending: instance.pending,
            slot: Some(instance.value),
        }
    }

    /// The tagged union as `peek_state` shows it.
    pub open spec fn tagged(self) -> TaggedView<S> {
        TaggedView {
            enum_name: self.machine.enum_name,
            variant: self.machine.states[self.active].enum_name,
            index: self.active,
            slot: self.slot,
        }
    }

    /// Whether the state with the variant identifier `id` is active.
    pub open spec fn active_is(self, id: Seq<char>) -> bool {
        self.started() && self.machine.states[self.active].enum_name == id
    }
}

/// Runs a machine's graph against the hooks of its states.
pub struct Dispatcher<S> {
    machine: Machine,
    states: Tagged<S>,
    do_entry: bool,
}

impl<S> View for Dispatcher<S> {
    type V = DispatcherView<S>;

    closed spec fn view(&self) -> DispatcherView<S> {
        DispatcherView {
            machine: self.machine@,
            active: self.states.index as int,
            pending: self.do_entry,
            slot: self.states.slot,
        }
    }
}

impl<S> Dispatcher<S> {
    /// The tag agrees with the graph: it names the active state, which is one
    /// of the graph's.
    #[verifier::type_invariant]
    spec fn inv(self) -> bool {
        self@.wf() && self.states@ == self@.tagged()
    }
}

impl<S: Edge<S>> Dispatcher<S> {
    /// A dispatcher for `machine`, not yet started.
    pub fn new(machine: Machine) -> (dispatcher: Dispatcher<S>)
        ensures
            dispatcher@ == (DispatcherView {
                machine: machine@,
                active: machine@.initial(),
                pending: true,
                slot: None::<S>,
            }),
            dispatcher@.wf(),
    {
        let initial = machine.initial();
        let states = Tagged::of(&machine, initial, None);
        Dispatcher { machine, states, do_entry: true }
    }

    /// The graph that is run.
    pub fn machine(&self) -> (machine: &Machine)
        ensures
            machine@ == self@.machine,
            self@.wf(),
    {
        proof {
            use_type_invariant(self);
        }
        &self.machine
    }

    /// Whether a state value is in place.
    pub fn is_started(&self) -> (b: bool)
        ensures
            b == self@.started(),
    {
        self.states.slot.is_some()
    }
}

impl<S: Edge<S>> StateMachine for Dispatcher<S> {
    type InitialState = S;

    type Error = Infallible;

    type StatesEnum = Tagged<S>;

    open spec fn runnable(&self) -> bool {
        self@.started()
    }

    /// Puts `state` in place as the value of the initial state, whatever
    /// stood there before. Its entry is owed.
    fn start(&mut self, state: S) -> (r: Result<(), Infallible>)
        ensures
            r is Ok,
            final(self)@ == (DispatcherView {
                machine: old(self)@.machine,
                active: old(self)@.machine.initial(),
                pending: true,
                slot: Some(state),
            }),
            final(self)@.wf(),
    {
        proof {
            use_type_invariant(&*self);
        }
        let initial = self.machine.initial();
        self.states = Tagged::of(&self.machine, initial, Some(state));
        self.do_entry = true;
        Ok(())
    }

    /// Runs one step: the entries if they are owed, the executes, the
    /// guards, and, if one fires, the exits and the conversion into the
    /// destination. The hooks of the transitions run once for every
    /// transition that leaves the active state, in the order in which the
    /// transitions were declared. The guards are asked in that order, and
    /// the first that fires wins.
    fn step(&mut self) -> (r: Result<(), Infallible>)
        ensures
            r is Ok,
            final(self)@ == old(self)@.resumed(
                stepped(old(self)@.machine, old(self)@.instance()),
            ),
            final(self)@.wf(),
    {
        proof {
            use_type_invariant(&*self);
        }
        let targets = self.machine.targets(self.states.index);
        let do_entry = self.do_entry;
        let mut taken: Option<S> = None;
        core::mem::swap(&mut self.states.slot, &mut taken);
        let value = taken.unwrap();
        proof {
            lemma_step_hook_by_hook(old(self)@.machine, old(self)@.instance());
            lemma_first_guard_wins(old(self)@.machine, old(self)@.instance());
        }
        match step::<S, S>(value, do_entry, &targets) {
            Stepped::Remain(value) => {
                self.states.slot = Some(value);
                self.do_entry = false;
            },
            Stepped::Transit(to, next) => {
                self.states = Tagged::of(&self.machine, to, Some(next));
                self.do_entry = true;
            },
        }
        Ok(())
    }

    /// Runs the exit of the active state, and those of the transitions that
    /// leave it, and hands out the tagged union with the value.
    fn stop(self) -> (r: Result<Tagged<S>, Infallible>)
        ensures
            r matches Ok(states) && states@ == (TaggedView {
                slot: Some(stopped(self@.machine, self@.instance())),
                ..self@.tagged()
            }),
    {
        proof {
            use_type_invariant(&self);
        }
        let targets = self.machine.targets(self.states.index);
        proof {
            lemma_step_hook_by_hook(self@.machine, self@.instance());
        }
        let Dispatcher { machine, states, do_entry } = self;
        let Tagged { enum_name, variant, index, slot } = states;
        let value = stop::<S, S>(slot.unwrap(), &targets);
        Ok(Tagged { enum_name, variant, index, slot: Some(value) })
    }

    /// The tagged union as it stands.
    fn peek_state(&self) -> (states: &Tagged<S>)
        ensures
            states@ == self@.tagged(),
            self@.wf(),
    {
        proof {
            use_type_invariant(self);
        }
        &self.states
    }
}

impl<S: Edge<S>> IsState<State> for Dispatcher<S> {
    open spec fn in_state(&self, state: &State) -> bool {
        self@.active_is(state@.enum_name)
    }

    /// Whether `state` is active: the machine is started, and the tag is
    /// the variant identifier of `state`.
    fn is_state(&self, state: &State) -> (b: bool) {
        proof {
            use_type_invariant(self);
        }
        self.states.slot.is_some() && state.is_variant(&self.states.variant)
    }
}

impl<S: Edge<S> + ReceiveMessage<M>, M> PushMessage<State, M> for Dispatcher<S> {
    /// Hands `message` to the active state if that is `state`. If it is
    /// not, the message comes back in the error and nothing changes.
    fn push_message(&mut self, state: &State, message: M) -> (r: Result<(), MessageError<M>>)
        ensures
            r is Ok ==> final(self)@ == (DispatcherView {
                slot: Some(old(self)@.slot.unwrap().received(message)),
                ..old(self)@
            }),
    {
        proof {
            use_type_invariant(&*self);
        }
        if !self.is_state(state) {
            return Err(MessageError::StateIsNotActive(message));
        }
        let mut taken: Option<S> = None;
        core::mem::swap(&mut self.states.slot, &mut taken);
        let mut value = taken.unwrap();
        value.receive_message(message);
        self.states.slot = Some(value);
        Ok(())
    }
}

impl<S: Edge<S> + ReturnMessage<M>, M> PollMessage<State, M> for Dispatcher<S> {
    /// Asks the active state for a message if that is `state`. If it is
    /// not, the answer is an error and nothing changes.
    fn poll_message(&mut self, state: &State) -> (r: Result<Option<M>, MessageError<()>>)
        ensures
            r matches Ok(message) ==> message == old(self)@.slot.unwrap().returned().1
                && final(self)@ == (DispatcherView {
                slot: Some(old(self)@.slot.unwrap().returned().0),
                ..old(self)@
            }),
    {
        proof {
            use_type_invariant(&*self);
        }
        if !self.is_state(state) {
            return Err(MessageError::StateIsNotActive(()));
        }
        let mut taken: Option<S> = None;
        core::mem::swap(&mut self.states.slot, &mut taken);
        let mut value = taken.unwrap();
        let message = value.return_message();
        self.states.slot = Some(value);
        Ok(message)
    }
}

/// What a declaration makes: a dispatcher for the machine it declares,
/// not yet started.
pub open spec fn added<S>(text: Seq<char>) -> Result<DispatcherView<S>, DeclarationError> {
    match parsed_machine(text) {
        Err(e) => Err(e),
        Ok(machine) => Ok(
            DispatcherView { machine, active: machine.initial(), pending: true, slot: None::<S> },
        ),
    }
}

/// Makes a state machine from its declaration, as in
/// `Elevator, Move<Up>, [Move<Up>, Move<Down>], [Move<Up> => Move<Down>]`.
/// The machine gets its state value with `start`.
pub fn add_state_machine<S: Edge<S>>(input: &str) -> (r: Result<Dispatcher<S>, DeclarationError>)
    ensures
        match r {
            Ok(dispatcher) => added::<S>(input@) == Ok::<DispatcherView<S>, DeclarationError>(
                dispatcher@,
            ),
            Err(e) => added::<S>(input@) == Err::<DispatcherView<S>, DeclarationError>(e),
        },
{
    match Machine::parse(input) {
        Err(e) => Err(e),
        Ok(machine) => Ok(Dispatcher::new(machine)),
    }
}

} // verus!
