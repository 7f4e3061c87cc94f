use sfsm::fallible::ExtendedSfsmError;
use sfsm::fallible::TryErrorState;
use sfsm::fallible::TryState;
use sfsm::fallible::TryTransition;
use sfsm::machine::Machine;
use sfsm::try_dispatcher::add_fallible_state_machine;
use sfsm::try_dispatcher::TryDispatcher;
use sfsm::types::State;
use sfsm::IsState;
use sfsm::DeclarationError;
use sfsm::StateMachine;
use sfsm::TransitGuard;

#[derive(Debug, PartialEq, Clone, Copy)]
enum Phase {
    Load,
    Run,
    Failed,
}

#[derive(Debug, PartialEq, Clone, Copy)]
enum Hook {
    Entry,
    Execute,
    Exit,
    EdgeEntry,
    EdgeExecute,
    EdgeExit,
}

#[derive(Debug)]
struct Loader {
    phase: Phase,
    executes: u32,
    fail_at: Option<(Phase, Hook)>,
    done_after: u32,
    consumed: Option<u16>,
    log: Vec<String>,
}

impl Loader {
    fn new(fail_at: Option<(Phase, Hook)>, done_after: u32) -> Loader {
        Loader {
            phase: Phase::Load,
            executes: 0,
            fail_at,
            done_after,
            consumed: None,
            log: Vec::new(),
        }
    }

    fn run(&mut self, hook: Hook) -> Result<(), u16> {
        self.log.push(format!("{:?}.{:?}", self.phase, hook));
        if self.fail_at == Some((self.phase, hook)) {
            if hook != Hook::Execute || self.executes == 3 {
                return Err(500 + self.executes as u16);
            }
        }
        Ok(())
    }
}

impl TryState for Loader {
    type Error = u16;

    fn try_entry(&mut self) -> Result<(), u16> {
        self.run(Hook::Entry)
    }

    fn try_execute(&mut self) -> Result<(), u16> {
        self.executes += 1;
        self.run(Hook::Execute)
    }

    fn try_exit(&mut self) -> Result<(), u16> {
        self.run(Hook::Exit)
    }
}

impl TryTransition<Loader> for Loader {
    type Error = u16;

    fn try_entry(&mut self, _to: usize) -> Result<(), u16> {
        self.run(Hook::EdgeEntry)
    }

    fn try_execute(&mut self, _to: usize) -> Result<(), u16> {
        self.run(Hook::EdgeExecute)
    }

    fn try_exit(&mut self, _to: usize) -> Result<(), u16> {
        self.run(Hook::EdgeExit)
    }

    fn guard(&self, to: usize) -> TransitGuard {
        (to != 2 && self.executes >= self.done_after).into()
    }

    fn transit(mut self, _to: usize) -> Loader {
        self.log.push(format!("{:?}.Convert", self.phase));
        self.phase = Phase::Run;
        self.executes = 0;
        self
    }
}

impl TryErrorState for Loader {
    fn consume_error(&mut self, err: u16) {
        self.phase = Phase::Failed;
        self.consumed = Some(err);
        self.log.push(format!("Failed.Consume({})", err));
    }
}

const LOADER: &str = "Loader, Load, [Load, Run, Failed], [Load => Run]";

fn log_of(machine: &TryDispatcher<Loader>) -> Vec<String> {
    machine.peek_state().slot.as_ref().unwrap().log.clone()
}

fn custom(r: Result<(), ExtendedSfsmError<u16>>) -> Option<u16> {
    match r {
        Err(ExtendedSfsmError::Custom(e)) => Some(e),
        _ => None,
    }
}

#[test]
fn an_error_in_execute_reaches_the_error_state() {
    let load = State::parse("Load").unwrap().0;
    let failed = State::parse("Failed").unwrap().0;
    let mut machine: TryDispatcher<Loader> = add_fallible_state_machine(LOADER, "Failed").unwrap();
    machine.start(Loader::new(Some((Phase::Load, Hook::Execute)), 100)).unwrap();
    assert!(machine.step().is_ok());
    assert!(machine.step().is_ok());
    assert!(machine.is_state(&load));
    let third = machine.step();
    assert_eq!(custom(third), Some(503));
    assert!(machine.is_state(&failed));
    assert_eq!(machine.peek_state().variant, "FailedState");
    assert_eq!(machine.peek_state().index, 2);
    assert_eq!(machine.peek_state().slot.as_ref().unwrap().consumed, None);
    assert_eq!(
        log_of(&machine),
        vec![
            "Load.Entry",
            "Load.EdgeEntry",
            "Load.Execute",
            "Load.EdgeExecute",
            "Load.Execute",
            "Load.EdgeExecute",
            "Load.Execute",
        ]
    );
    assert!(machine.step().is_ok());
    assert!(machine.is_state(&failed));
    assert_eq!(machine.peek_state().slot.as_ref().unwrap().consumed, Some(503));
    assert_eq!(
        &log_of(&machine)[7..],
        &["Failed.Consume(503)", "Failed.Entry", "Failed.Execute"]
    );
    assert!(machine.step().is_ok());
    assert_eq!(&log_of(&machine)[10..], &["Failed.Execute"]);
}

#[test]
fn without_an_error_the_steps_are_those_of_a_plain_machine() {
    let mut machine: TryDispatcher<Loader> = add_fallible_state_machine(LOADER, "Failed").unwrap();
    machine.start(Loader::new(None, 2)).unwrap();
    assert!(machine.step().is_ok());
    assert_eq!(machine.peek_state().variant, "LoadState");
    assert!(machine.step().is_ok());
    assert_eq!(machine.peek_state().variant, "RunState");
    assert!(machine.step().is_ok());
    assert_eq!(
        log_of(&machine),
        vec![
            "Load.Entry",
            "Load.EdgeEntry",
            "Load.Execute",
            "Load.EdgeExecute",
            "Load.Execute",
            "Load.EdgeExecute",
            "Load.Exit",
            "Load.EdgeExit",
            "Load.Convert",
            "Run.Entry",
            "Run.Execute",
        ]
    );
    let last = machine.stop();
    match last {
        Ok(states) => {
            assert_eq!(states.variant, "RunState");
            assert_eq!(states.slot.unwrap().log.last().unwrap(), "Run.Exit");
        }
        Err(_) => panic!("stopping failed"),
    }
}

#[test]
fn every_hook_can_send_the_machine_into_the_error_state() {
    let hooks = [
        (Hook::Entry, vec!["Load.Entry"]),
        (Hook::EdgeEntry, vec!["Load.Entry", "Load.EdgeEntry"]),
        (Hook::EdgeExecute, vec!["Load.Entry", "Load.EdgeEntry", "Load.Execute", "Load.EdgeExecute"]),
        (
            Hook::Exit,
            vec!["Load.Entry", "Load.EdgeEntry", "Load.Execute", "Load.EdgeExecute", "Load.Exit"],
        ),
        (
            Hook::EdgeExit,
            vec![
                "Load.Entry",
                "Load.EdgeEntry",
                "Load.Execute",
                "Load.EdgeExecute",
                "Load.Exit",
                "Load.EdgeExit",
            ],
        ),
    ];
    for (hook, expected) in hooks {
        let mut machine: TryDispatcher<Loader> =
            add_fallible_state_machine(LOADER, "Failed").unwrap();
        machine.start(Loader::new(Some((Phase::Load, hook)), 1)).unwrap();
        assert_eq!(custom(machine.step()), Some(501 - (hook == Hook::Entry || hook == Hook::EdgeEntry) as u16));
        assert_eq!(machine.peek_state().variant, "FailedState");
        assert_eq!(log_of(&machine), expected);
        assert!(machine.step().is_ok());
        assert!(machine.peek_state().slot.as_ref().unwrap().consumed.is_some());
    }
}

#[test]
fn a_machine_that_was_not_started_reports_an_internal_error() {
    let mut machine: TryDispatcher<Loader> = add_fallible_state_machine(LOADER, "Failed").unwrap();
    assert!(!machine.is_started());
    assert!(matches!(machine.step(), Err(ExtendedSfsmError::Internal)));
    assert!(!machine.is_started());
    assert_eq!(machine.peek_state().variant, "LoadState");
    assert!(matches!(machine.stop(), Err(ExtendedSfsmError::Internal)));
}

#[test]
fn stopping_hands_over_an_error_that_is_still_kept() {
    let mut machine: TryDispatcher<Loader> = add_fallible_state_machine(LOADER, "Failed").unwrap();
    machine.start(Loader::new(Some((Phase::Load, Hook::Entry)), 1)).unwrap();
    assert_eq!(custom(machine.step()), Some(500));
    match machine.stop() {
        Ok(states) => {
            let value = states.slot.unwrap();
            assert_eq!(value.consumed, Some(500));
            assert_eq!(value.log, vec!["Load.Entry", "Failed.Consume(500)", "Failed.Exit"]);
        }
        Err(_) => panic!("stopping failed"),
    }
}

#[test]
fn an_exit_that_fails_while_stopping_is_reported() {
    let mut machine: TryDispatcher<Loader> = add_fallible_state_machine(LOADER, "Failed").unwrap();
    machine.start(Loader::new(Some((Phase::Load, Hook::Exit)), 100)).unwrap();
    assert!(machine.step().is_ok());
    assert!(matches!(machine.stop(), Err(ExtendedSfsmError::Custom(501))));
}

#[test]
fn the_error_state_must_be_declared() {
    let r: Result<TryDispatcher<Loader>, DeclarationError> = add_fallible_state_machine(LOADER, "Broken");
    assert_eq!(r.err(), Some(DeclarationError::UndeclaredState));
    let r: Result<TryDispatcher<Loader>, DeclarationError> = add_fallible_state_machine(LOADER, "Failed,");
    assert_eq!(r.err(), Some(DeclarationError::Syntax { at: 6 }));
    let r: Result<TryDispatcher<Loader>, DeclarationError> =
        add_fallible_state_machine("Loader, Load", "Failed");
    assert_eq!(r.err(), Some(DeclarationError::Syntax { at: 12 }));
    let machine = Machine::parse(LOADER).unwrap();
    let failed = State::parse("Failed").unwrap().0;
    let dispatcher: TryDispatcher<Loader> = TryDispatcher::new(machine, &failed).unwrap();
    assert_eq!(dispatcher.machine().len(), 3);
}

#[test]
fn several_transitions_of_a_machine_with_error_handling() {
    let mut machine: TryDispatcher<Loader> = add_fallible_state_machine(
        "Loader, Load, [Load, Run, Failed], [Load => Failed, Load => Run]",
        "Failed",
    )
    .unwrap();
    assert_eq!(machine.machine().targets(0), vec![2, 1]);
    machine.start(Loader::new(None, 1)).unwrap();
    assert!(machine.step().is_ok());
    assert_eq!(machine.peek_state().variant, "RunState");
    assert_eq!(
        log_of(&machine),
        vec![
            "Load.Entry",
            "Load.EdgeEntry",
            "Load.EdgeEntry",
            "Load.Execute",
            "Load.EdgeExecute",
            "Load.EdgeExecute",
            "Load.Exit",
            "Load.EdgeExit",
            "Load.EdgeExit",
            "Load.Convert",
        ]
    );
    let mut machine: TryDispatcher<Loader> = add_fallible_state_machine(
        "Loader, Load, [Load, Run, Failed], [Load => Failed, Load => Run]",
        "Failed",
    )
    .unwrap();
    machine.start(Loader::new(Some((Phase::Load, Hook::EdgeExecute)), 1)).unwrap();
    assert_eq!(custom(machine.step()), Some(501));
    assert_eq!(machine.peek_state().variant, "FailedState");
    assert_eq!(
        log_of(&machine),
        vec!["Load.Entry", "Load.EdgeEntry", "Load.EdgeEntry", "Load.Execute", "Load.EdgeExecute"]
    );
}

#[derive(Debug, Default)]
struct Fragile {
    heard: Option<String>,
}

impl TryState for Fragile {
    type Error = String;

    fn try_entry(&mut self) -> Result<(), String> {
        Ok(())
    }

    fn try_execute(&mut self) -> Result<(), String> {
        match self.heard {
            None => Err("it broke".to_string()),
            Some(_) => Ok(()),
        }
    }

    fn try_exit(&mut self) -> Result<(), String> {
        Ok(())
    }
}

impl TryTransition<Fragile> for Fragile {
    type Error = String;

    fn try_entry(&mut self, _to: usize) -> Result<(), String> {
        Ok(())
    }

    fn try_execute(&mut self, _to: usize) -> Result<(), String> {
        Ok(())
    }

    fn try_exit(&mut self, _to: usize) -> Result<(), String> {
        Ok(())
    }

    fn guard(&self, _to: usize) -> TransitGuard {
        TransitGuard::Remain
    }

    fn transit(self, _to: usize) -> Fragile {
        self
    }
}

impl TryErrorState for Fragile {
    fn consume_error(&mut self, err: String) {
        self.heard = Some(err);
    }
}

#[test]
fn an_error_that_is_no_copy_type_is_reported_and_handed_on() {
    let mut machine: TryDispatcher<Fragile> =
        add_fallible_state_machine("Glass, Whole, [Whole, Broken], []", "Broken").unwrap();
    machine.start(Fragile::default()).unwrap();
    match machine.step() {
        Err(ExtendedSfsmError::Custom(e)) => assert_eq!(e, "it broke"),
        _ => panic!("the step did not fail"),
    }
    assert_eq!(machine.peek_state().variant, "BrokenState");
    assert_eq!(machine.peek_state().slot.as_ref().unwrap().heard, None);
    assert!(machine.step().is_ok());
    assert_eq!(machine.peek_state().slot.as_ref().unwrap().heard, Some("it broke".to_string()));
}
