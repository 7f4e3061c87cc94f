//! The dispatcher of a machine with error handling.

use crate::contract::IsState;
use crate::contract::MessageError;
use crate::contract::PollMessage;
use crate::contract::PushMessage;
use crate::contract::ReceiveMessage;
use crate::contract::ReturnMessage;
use crate::contract::StateMachine;
use crate::error::DeclarationError;
use crate::error::yields;
use crate::fallible::ExtendedSfsmError;
use crate::fallible::TryErrorState;
use crate::fallible::TryHooks;
use crate::fallible::TryState;
use crate::fallible::TryTransition;
use crate::machine::Machine;
use crate::machine::MachineView;
use crate::machine::position;
use crate::parsers::parsed_machine;
use crate::parsers::read_whole;
use crate::parsers::whole;
use crate::source::Source;
use crate::source::state_at;
use crate::tagged::Tagged;
use crate::tagged::TaggedView;
use crate::try_lifecycle::lemma_try_step_hook_by_hook;
use crate::try_lifecycle::try_step_outcome;
use crate::try_lifecycle::try_stepped;
use crate::try_lifecycle::try_stopped;
use crate::try_lifecycle::TryInstance;
use crate::try_steps::lemma_try_choice;
use crate::try_steps::try_before_guard;
use crate::try_steps::try_step;
use crate::try_steps::try_stop;
use crate::try_steps::TryStepped;
use crate::types::State;
use vstd::prelude::*;

verus! {

/// What a dispatcher with error handling stands for: a graph, the place of
/// its error state, the place of the active state, whether that state's
/// entry is owed, the state's value once the machine is started, and the
/// error that the active state is still to be handed.
pub struct TryDispatcherView<S, E> {
    /// The graph that is run.
    pub machine: MachineView,
    /// The place of the error state among the graph's states.
    pub error: int,
    /// The place of the active state among the graph's states.
    pub active: int,
    /// Whether the active state's entry is owed.
    pub pending: bool,
    /// The active state's value, once the machine is started.
    pub slot: Option<S>,
    /// The error that the active state is still to be handed.
    pub fault: Option<E>,
}

impl<S, E> TryDispatcherView<S, E> {
    /// Whether the active state and the error state are among the graph's.
    pub open spec fn wf(self) -> bool {
        &&& self.machine.wf()
        &&& 0 <= self.active < self.machine.states.len()
        &&& 0 <= self.error < self.machine.states.len()
    }

    /// Whether a state value is in place.
    pub open spec fn started(self) -> bool {
        self.slot is Some
    }

    /// The running machine.
    pub open spec fn instance(self) -> TryInstance<S, E> {
        TryInstance {
            active: self.active,
            pending: self.pending,
            value: self.slot.unwrap(),
            fault: self.fault,
        }
    }

    /// The same dispatcher with the running machine `instance`.
    pub open spec fn resumed(self, instance: TryInstance<S, E>) -> TryDispatcherView<S, E> {
        TryDispatcherView {
            machine: self.machine,
            error: self.error,
            active: instance.active,
            pending: instance.pending,
            slot: Some(instance.value),
            fault: instance.fault,
        }
    }

    /// The tagged union as `peek_state` shows it.
    pub open spec fn tagged(self) -> TaggedView<S> {
        TaggedView {
            enum_name: self.machine.enum_name,
            variant: self.machine.states[self.active].enum_name,
            index: self.active,
            slot: self.slot,
        }
    }

    /// Whether the state with the variant identifier `id` is active.
    pub open spec fn active_is(self, id: Seq<char>) -> bool {
        self.started() && self.machine.states[self.active].enum_name == id
    }
}

/// Runs a machine's graph against the hooks of its states, and sends it
/// into its error state when a hook fails.
pub struct TryDispatcher<S: TryState> {
    machine: Machine,
    states: Tagged<S>,
    do_entry: bool,
    error: usize,
    fault: Option<<S as TryState>::Error>,
}

impl<S: TryState> View for TryDispatcher<S> {
    type V = TryDispatcherView<S, <S as TryState>::Error>;

    closed spec fn view(&self) -> TryDispatcherView<S, <S as TryState>::Error> {
        TryDispatcherView {
            machine: self.machine@,
            error: self.error as int,
            active: self.states.index as int,
            pending: self.do_entry,
            slot: self.states.slot,
            fault: self.fault,
        }
    }
}

impl<S: TryState> TryDispatcher<S> {
    /// The tag agrees with the graph: it names the active state, which is one
    /// of the graph's, as is the error state.
    #[verifier::type_invariant]
    spec fn inv(self) -> bool {
        self@.wf() && self.states@ == self@.tagged()
    }
}

impl<S: TryHooks<S> + TryErrorState> TryDispatcher<S> where <S as TryState>::Error: Clone {
    /// A dispatcher for `machine` that falls into `error_state` when a hook
    /// fails. The state must be one of the machine's.
    pub fn new(machine: Machine, error_state: &State) -> (r: Result<
        TryDispatcher<S>,
        DeclarationError,
    >)
        ensures
            match position(machine@.states, error_state@, 0) {
                Some(error) => r matches Ok(dispatcher) && dispatcher@ == (TryDispatcherView {
                    machine: machine@,
                    error,
                    active: machine@.initial(),
                    pending: true,
                    slot: None::<S>,
                    fault: None::<<S as TryState>::Error>,
                }) && dispatcher@.wf(),
                None => r matches Err(e) && e == DeclarationError::UndeclaredState,
            },
    {
        match machine.place_of(error_state) {
            None => Err(DeclarationError::UndeclaredState),
            Some(error) => {
                let initial = machine.initial();
                let states = Tagged::of(&machine, initial, None);
                Ok(TryDispatcher { machine, states, do_entry: true, error, fault: None })
            },
        }
    }

    /// The graph that is run.
    pub fn machine(&self) -> (machine: &Machine)
        ensures
            machine@ == self@.machine,
            self@.wf(),
    {
        proof {
            use_type_invariant(self);
        }
        &self.machine
    }

    /// Whether a state value is in place.
    pub fn is_started(&self) -> (b: bool)
        ensures
            b == self@.started(),
    {
        self.states.slot.is_some()
    }

    /// Falls into the error state with `value`, keeps `e` for it, and
    /// reports a clone of `e`.
    fn fall(&mut self, value: S, e: <S as TryState>::Error) -> (r: Result<
        (),
        ExtendedSfsmError<<S as TryState>::Error>,
    >)
        ensures
            r matches Err(ExtendedSfsmError::Custom(reported)) && cloned(e, reported),
            final(self)@ == (TryDispatcherView {
                machine: old(self)@.machine,
                error: old(self)@.error,
                active: old(self)@.error,
                pending: true,
                slot: Some(value),
                fault: Some(e),
            }),
            final(self)@.wf(),
    {
        proof {
            use_type_invariant(&*self);
        }
        self.states = Tagged::of(&self.machine, self.error, Some(value));
        self.do_entry = true;
        let reported = e.clone();
        self.fault = Some(e);
        Err(ExtendedSfsmError::Custom(reported))
    }
}

impl<S: TryHooks<S> + TryErrorState> StateMachine for TryDispatcher<S> where
    <S as TryState>::Error: Clone,
 {
    type InitialState = S;

    type Error = ExtendedSfsmError<<S as TryState>::Error>;

    type StatesEnum = Tagged<S>;

    open spec fn runnable(&self) -> bool {
        true
    }

    /// Puts `state` in place as the value of the initial state, whatever
    /// stood there before. Its entry is owed, and no error is kept.
    fn start(&mut self, state: S) -> (r: Result<(), ExtendedSfsmError<<S as TryState>::Error>>)
        ensures
            r is Ok,
            final(self)@ == (TryDispatcherView {
                machine: old(self)@.machine,
                error: old(self)@.error,
                active: old(self)@.machine.initial(),
                pending: true,
                slot: Some(state),
                fault: None::<<S as TryState>::Error>,
            }),
            final(self)@.wf(),
    {
        proof {
            use_type_invariant(&*self);
        }
        let initial = self.machine.initial();
        self.states = Tagged::of(&self.machine, initial, Some(state));
        self.do_entry = true;
        self.fault = None;
        Ok(())
    }

    /// Runs one step. The active state is first handed the error that is
    /// kept for it. Then the hooks run as in a machine without error
    /// handling, up to the first that fails. With that hook's error the
    /// machine falls into its error state, which is handed the error by the
    /// next step, and this step reports a clone of the error.
    /// Before the machine is started the step reports an internal error and
    /// changes nothing.
    fn step(&mut self) -> (r: Result<(), ExtendedSfsmError<<S as TryState>::Error>>)
        ensures
            !old(self)@.started() ==> (r matches Err(ExtendedSfsmError::Internal)),
            !old(self)@.started() ==> final(self)@ == old(self)@,
            old(self)@.started() ==> final(self)@ == old(self)@.resumed(
                try_stepped(old(self)@.machine, old(self)@.error, old(self)@.instance()),
            ) && (match try_step_outcome(old(self)@.machine, old(self)@.instance()).fault {
                Some(e) => r matches Err(ExtendedSfsmError::Custom(reported)) && cloned(
                    e,
                    reported,
                ),
                None => r is Ok,
            }),
            final(self)@.wf(),
    {
        proof {
            use_type_invariant(&*self);
        }
        if self.states.slot.is_none() {
            return Err(ExtendedSfsmError::Internal);
        }
        proof {
            lemma_try_step_hook_by_hook(self@.machine, self@.error, self@.instance());
        }
        let targets = self.machine.targets(self.states.index);
        let do_entry = self.do_entry;
        let mut taken: Option<S> = None;
        core::mem::swap(&mut self.states.slot, &mut taken);
        let mut value = taken.unwrap();
        let mut kept: Option<<S as TryState>::Error> = None;
        core::mem::swap(&mut self.fault, &mut kept);
        match kept {
            Some(e) => {
                value.consume_error(e);
            },
            None => {},
        }
        proof {
            lemma_try_choice::<S, S>(
                try_before_guard::<S, S>(do_entry, targets@, value).0,
                targets@,
                0,
            );
        }
        match try_step::<S, S>(value, do_entry, &targets) {
            TryStepped::Fault(value, e) => self.fall(value, e),
            TryStepped::Remain(value) => {
                self.states.slot = Some(value);
                self.do_entry = false;
                Ok(())
            },
            TryStepped::Transit(to, next) => {
                self.states = Tagged::of(&self.machine, to, Some(next));
                self.do_entry = true;
                Ok(())
            },
        }
    }

    /// Hands the active state the error that is kept for it, runs its exit,
    /// and those of the transitions that leave it, and hands out the
    /// tagged union with the value. An exit that fails is reported, and
    /// nothing is handed out. Before the machine is started stopping
    /// reports an internal error.
    fn stop(self) -> (r: Result<Tagged<S>, ExtendedSfsmError<<S as TryState>::Error>>)
        ensures
            !self@.started() ==> (r matches Err(ExtendedSfsmError::Internal)),
            self@.started() ==> (match try_stopped(self@.machine, self@.instance()).fault {
                Some(e) => r matches Err(ExtendedSfsmError::Custom(reported)) && reported == e,
                None => r matches Ok(states) && states@ == (TaggedView {
                    slot: Some(try_stopped(self@.machine, self@.instance()).value),
                    ..self@.tagged()
                }),
            }),
    {
        proof {
            use_type_invariant(&self);
        }
        if self.states.slot.is_none() {
            return Err(ExtendedSfsmError::Internal);
        }
        proof {
            lemma_try_step_hook_by_hook(self@.machine, self@.error, self@.instance());
        }
        let targets = self.machine.targets(self.states.index);
        let TryDispatcher { machine, states, do_entry, error, fault } = self;
        let Tagged { enum_name, variant, index, slot } = states;
        let mut value = slot.unwrap();
        match fault {
            Some(e) => {
                value.consume_error(e);
            },
            None => {},
        }
        let (value, exited) = try_stop::<S, S>(value, &targets);
        match exited {
            Err(e) => {
                return Err(ExtendedSfsmError::Custom(e));
            },
            Ok(_) => {},
        }
        Ok(Tagged { enum_name, variant, index, slot: Some(value) })
    }

    /// The tagged union as it stands.
    fn peek_state(&self) -> (states: &Tagged<S>)
        ensures
            states@ == self@.tagged(),
            self@.wf(),
    {
        proof {
            use_type_invariant(self);
        }
        &self.states
    }
}

impl<S: TryHooks<S> + TryErrorState> IsState<State> for TryDispatcher<S> where
    <S as TryState>::Error: Clone,
 {
    open spec fn in_state(&self, state: &State) -> bool {
        self@.active_is(state@.enum_name)
    }

    /// Whether `state` is active: the machine is started, and the tag is
    /// the variant identifier of `state`.
    fn is_state(&self, state: &State) -> (b: bool) {
        proof {
            use_type_invariant(self);
        }
        self.states.slot.is_some() && state.is_variant(&self.states.variant)
    }
}

impl<S: TryHooks<S> + TryErrorState + ReceiveMessage<M>, M> PushMessage<
    State,
    M,
> for TryDispatcher<S> where <S as TryState>::Error: Clone {
    /// Hands `message` to the active state if that is `state`. If it is
    /// not, the message comes back in the error and nothing changes.
    fn push_message(&mut self, state: &State, message: M) -> (r: Result<(), MessageError<M>>)
        ensures
            r is Ok ==> final(self)@ == (TryDispatcherView {
                slot: Some(old(self)@.slot.unwrap().received(message)),
                ..old(self)@
            }),
    {
        proof {
            use_type_invariant(&*self);
        }
        if !self.is_state(state) {
            return Err(MessageError::StateIsNotActive(message));
        }
        let mut taken: Option<S> = None;
        core::mem::swap(&mut self.states.slot, &mut taken);
        let mut value = taken.unwrap();
        value.receive_message(message);
        self.states.slot = Some(value);
        Ok(())
    }
}

impl<S: TryHooks<S> + TryErrorState + ReturnMessage<M>, M> PollMessage<
    State,
    M,
> for TryDispatcher<S> where <S as TryState>::Error: Clone {
    /// Asks the active state for a message if that is `state`. If it is
    /// not, the answer is an error and nothing changes.
    fn poll_message(&mut self, state: &State) -> (r: Result<Option<M>, MessageError<()>>)
        ensures
            r matches Ok(message) ==> message == old(self)@.slot.unwrap().returned().1
                && final(self)@ == (TryDispatcherView {
                slot: Some(old(self)@.slot.unwrap().returned().0),
                ..old(self)@
            }),
    {
        proof {
            use_type_invariant(&*self);
        }
        if !self.is_state(state) {
            return Err(MessageError::StateIsNotActive(()));
        }
        let mut taken: Option<S> = None;
        core::mem::swap(&mut self.states.slot, &mut taken);
        let mut value = taken.unwrap();
        let message = value.return_message();
        self.states.slot = Some(value);
        Ok(message)
    }
}

/// What a declaration and the name of an error state make: a dispatcher
/// with error handling, not yet started.
pub open spec fn added_fallible<S, E>(text: Seq<char>, error_text: Seq<char>) -> Result<
    TryDispatcherView<S, E>,
    DeclarationError,
> {
    match parsed_machine(text) {
        Err(e) => Err(e),
        Ok(machine) => match whole(error_text, state_at(error_text, 0)) {
            Err(e) => Err(e),
            Ok(error_state) => match position(machine.states, error_state, 0) {
                None => Err(DeclarationError::UndeclaredState),
                Some(error) => Ok(
                    TryDispatcherView {
                        machine,
                        error,
                        active: machine.initial(),
                        pending: true,
                        slot: None::<S>,
                        fault: None::<E>,
                    },
                ),
            },
        },
    }
}

/// Makes a state machine with error handling from its declaration and the
/// state that it falls into when a hook fails, as in
/// `Loader, Load, [Load, Failed], []` and `Failed`.
pub fn add_fallible_state_machine<S: TryHooks<S> + TryErrorState>(
    input: &str,
    error_state: &str,
) -> (r: Result<TryDispatcher<S>, DeclarationError>) where <S as TryState>::Error: Clone
    ensures
        yields(r, added_fallible::<S, <S as TryState>::Error>(input@, error_state@)),
{
    let machine = match Machine::parse(input) {
        Err(e) => {
            return Err(e);
        },
        Ok(machine) => machine,
    };
    let source = Source::new(error_state);
    let state = match source.state_at(0) {
        Err(e) => {
            return Err(e);
        },
        Ok((state, next)) => match read_whole(&source, state, next) {
            Err(e) => {
                return Err(e);
            },
            Ok(state) => state,
        },
    };
    TryDispatcher::new(machine, &state)
}

} // verus!
