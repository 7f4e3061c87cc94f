use sfsm::bindings::is_bound;
use sfsm::dispatcher::add_state_machine;
use sfsm::dispatcher::Dispatcher;
use sfsm::fallible::TryErrorState;
use sfsm::fallible::TryState;
use sfsm::fallible::TryTransition;
use sfsm::non_fallible::State;
use sfsm::non_fallible::Transition;
use sfsm::parsers::add_messages;
use sfsm::try_dispatcher::add_fallible_state_machine;
use sfsm::try_dispatcher::TryDispatcher;
use sfsm::types::State as StateRef;
use sfsm::MessageError;
use sfsm::PollMessage;
use sfsm::PushMessage;
use sfsm::ReceiveMessage;
use sfsm::ReturnMessage;
use sfsm::StateMachine;
use sfsm::TransitGuard;

#[derive(Debug, PartialEq)]
struct Command {
    target: u32,
    note: String,
}

#[derive(Debug, PartialEq)]
struct Status {
    level: u32,
}

#[derive(Debug)]
struct Loader {
    loading: bool,
    level: u32,
    target: u32,
    status: Option<Status>,
}

impl Loader {
    fn new() -> Loader {
        Loader { loading: true, level: 0, target: 1000, status: None }
    }
}

impl State for Loader {
    fn entry(&mut self) {}

    fn execute(&mut self) {
        if self.loading {
            self.level += 1;
            self.status = Some(Status { level: self.level });
        }
    }

    fn exit(&mut self) {}
}

impl Transition<Loader> for Loader {
    fn entry(&mut self, _to: usize) {}

    fn execute(&mut self, _to: usize) {}

    fn exit(&mut self, _to: usize) {}

    fn guard(&self, _to: usize) -> TransitGuard {
        (self.level >= self.target).into()
    }

    fn transit(self, _to: usize) -> Loader {
        Loader { loading: false, ..self }
    }
}

impl ReceiveMessage<Command> for Loader {
    fn receive_message(&mut self, message: Command) {
        self.target = message.target;
    }
}

impl ReturnMessage<Status> for Loader {
    fn return_message(&mut self) -> Option<Status> {
        self.status.take()
    }
}

impl TryState for Loader {
    type Error = u8;

    fn try_entry(&mut self) -> Result<(), u8> {
        Ok(())
    }

    fn try_execute(&mut self) -> Result<(), u8> {
        State::execute(self);
        Ok(())
    }

    fn try_exit(&mut self) -> Result<(), u8> {
        Ok(())
    }
}

impl TryTransition<Loader> for Loader {
    type Error = u8;

    fn try_entry(&mut self, _to: usize) -> Result<(), u8> {
        Ok(())
    }

    fn try_execute(&mut self, _to: usize) -> Result<(), u8> {
        Ok(())
    }

    fn try_exit(&mut self, _to: usize) -> Result<(), u8> {
        Ok(())
    }

    fn guard(&self, _to: usize) -> TransitGuard {
        (self.level >= self.target).into()
    }

    fn transit(self, _to: usize) -> Loader {
        Loader { loading: false, ..self }
    }
}

impl TryErrorState for Loader {
    fn consume_error(&mut self, _err: u8) {}
}

const LOADER: &str = "Loader, Load, [Load, Run], [Load => Run]";
const MESSAGES: &str = "Loader, [Command -> Load, Status <- Load, Status <- Run]";

#[test]
fn messages_reach_the_active_state_only() {
    let mut machine: Dispatcher<Loader> = add_state_machine(LOADER).unwrap();
    let messages = add_messages(machine.machine(), MESSAGES).unwrap();
    let load = StateRef::parse("Load").unwrap().0;
    machine.start(Loader::new()).unwrap();
    machine.step().unwrap();
    machine.step().unwrap();
    let sent = machine.push_bound(&messages, &load, Command { target: 3, note: "soon".to_string() });
    assert!(sent.is_ok());
    assert_eq!(machine.peek_state().slot.as_ref().unwrap().target, 3);
    let polled: Result<Option<Status>, MessageError<()>> = machine.poll_bound(&messages, &load);
    assert_eq!(polled.ok(), Some(Some(Status { level: 2 })));
    let again: Result<Option<Status>, MessageError<()>> = machine.poll_bound(&messages, &load);
    assert_eq!(again.ok(), Some(None));
    machine.step().unwrap();
    assert_eq!(machine.peek_state().variant, "RunState");
    let command = Command { target: 9, note: "late".to_string() };
    match machine.push_bound(&messages, &load, command) {
        Err(MessageError::StateIsNotActive(rejected)) => {
            assert_eq!(rejected, Command { target: 9, note: "late".to_string() });
        }
        _ => panic!("the message was taken"),
    }
    assert_eq!(machine.peek_state().slot.as_ref().unwrap().target, 3);
    let polled: Result<Option<Status>, MessageError<()>> = machine.poll_bound(&messages, &load);
    assert!(matches!(polled, Err(MessageError::StateIsNotActive(()))));
    assert_eq!(machine.peek_state().slot.as_ref().unwrap().status, Some(Status { level: 3 }));
}

#[test]
fn a_state_without_a_binding_exchanges_nothing() {
    let mut machine: Dispatcher<Loader> = add_state_machine(LOADER).unwrap();
    let messages = add_messages(machine.machine(), MESSAGES).unwrap();
    let load = StateRef::parse("Load").unwrap().0;
    let run = StateRef::parse("Run").unwrap().0;
    assert!(is_bound(&messages, true, &load));
    assert!(is_bound(&messages, false, &load));
    assert!(!is_bound(&messages, true, &run));
    assert!(is_bound(&messages, false, &run));
    assert!(!is_bound(&messages, false, &StateRef::parse("Stop").unwrap().0));
    let only_push = add_messages(machine.machine(), "Loader, [Command -> Load]").unwrap();
    machine.start(Loader::new()).unwrap();
    machine.step().unwrap();
    let polled: Result<Option<Status>, MessageError<()>> = machine.poll_bound(&only_push, &load);
    assert!(matches!(polled, Err(MessageError::StateIsNotActive(()))));
    assert_eq!(machine.peek_state().slot.as_ref().unwrap().status, Some(Status { level: 1 }));
    assert!(machine.push_bound(&only_push, &load, Command { target: 1, note: String::new() }).is_ok());
    machine.step().unwrap();
    assert_eq!(machine.peek_state().variant, "RunState");
    match machine.push_bound(&messages, &run, Command { target: 5, note: "n".to_string() }) {
        Err(MessageError::StateIsNotActive(rejected)) => {
            assert_eq!(rejected, Command { target: 5, note: "n".to_string() })
        }
        _ => panic!("the message was taken"),
    }
    assert_eq!(machine.peek_state().slot.as_ref().unwrap().target, 1);
    let polled: Result<Option<Status>, MessageError<()>> = machine.poll_bound(&messages, &run);
    assert_eq!(polled.ok(), Some(Some(Status { level: 2 })));
}

#[test]
fn a_machine_that_was_not_started_takes_no_message() {
    let mut machine: Dispatcher<Loader> = add_state_machine(LOADER).unwrap();
    let messages = add_messages(machine.machine(), MESSAGES).unwrap();
    let load = &messages.messages[0].state;
    let command = Command { target: 1, note: String::new() };
    match machine.push_message(load, command) {
        Err(MessageError::StateIsNotActive(rejected)) => assert_eq!(rejected.target, 1),
        _ => panic!("the message was taken"),
    }
    let polled: Result<Option<Status>, MessageError<()>> = machine.poll_message(load);
    assert!(polled.is_err());
    let polled: Result<Option<Status>, MessageError<()>> = machine.poll_bound(&messages, load);
    assert!(polled.is_err());
}

#[test]
fn messages_of_a_machine_with_error_handling() {
    let mut machine: TryDispatcher<Loader> = add_fallible_state_machine(LOADER, "Run").unwrap();
    let messages = add_messages(machine.machine(), MESSAGES).unwrap();
    let load = StateRef::parse("Load").unwrap().0;
    let run = StateRef::parse("Run").unwrap().0;
    assert!(machine.start(Loader::new()).is_ok());
    assert!(machine.step().is_ok());
    assert!(machine.push_bound(&messages, &load, Command { target: 2, note: String::new() }).is_ok());
    let polled: Result<Option<Status>, MessageError<()>> = machine.poll_bound(&messages, &load);
    assert_eq!(polled.ok(), Some(Some(Status { level: 1 })));
    match machine.push_bound(&messages, &run, Command { target: 7, note: "x".to_string() }) {
        Err(MessageError::StateIsNotActive(rejected)) => {
            assert_eq!(rejected, Command { target: 7, note: "x".to_string() })
        }
        _ => panic!("the message was taken"),
    }
    assert!(machine.step().is_ok());
    assert_eq!(machine.peek_state().variant, "RunState");
    let polled: Result<Option<Status>, MessageError<()>> = machine.poll_bound(&messages, &load);
    assert!(matches!(polled, Err(MessageError::StateIsNotActive(()))));
    let polled: Result<Option<Status>, MessageError<()>> = machine.poll_bound(&messages, &run);
    assert_eq!(polled.ok(), Some(Some(Status { level: 2 })));
    match machine.push_bound(&messages, &run, Command { target: 8, note: String::new() }) {
        Err(MessageError::StateIsNotActive(rejected)) => assert_eq!(rejected.target, 8),
        _ => panic!("the message was taken"),
    }
    assert!(machine.push_message(&run, Command { target: 8, note: String::new() }).is_ok());
}
