use sfsm::fallible::TryState;
use sfsm::fallible::TryTransition;
use sfsm::non_fallible::State;
use sfsm::non_fallible::Transition;
use sfsm::steps::step;
use sfsm::steps::stop;
use sfsm::steps::Stepped;
use sfsm::try_steps::try_step;
use sfsm::try_steps::try_stop;
use sfsm::try_steps::TryStepped;
use sfsm::TransitGuard;

#[derive(Debug, PartialEq)]
struct Lift {
    floor: u32,
    top: u32,
    alarm: bool,
    log: Vec<String>,
}

#[derive(Debug, PartialEq)]
struct Parked {
    floor: u32,
    by: usize,
    log: Vec<String>,
}

impl State for Lift {
    fn entry(&mut self) {
        self.log.push("entry".to_string());
    }

    fn execute(&mut self) {
        self.floor += 1;
        self.log.push("execute".to_string());
    }

    fn exit(&mut self) {
        self.log.push("exit".to_string());
    }
}

impl Transition<Parked> for Lift {
    fn entry(&mut self, to: usize) {
        self.log.push(format!("entry {}", to));
    }

    fn execute(&mut self, to: usize) {
        self.log.push(format!("execute {}", to));
    }

    fn exit(&mut self, to: usize) {
        self.log.push(format!("exit {}", to));
    }

    fn guard(&self, to: usize) -> TransitGuard {
        match to {
            7 => self.alarm.into(),
            _ => (self.floor >= self.top).into(),
        }
    }

    fn transit(mut self, to: usize) -> Parked {
        self.log.push(format!("convert {}", to));
        Parked { floor: self.floor, by: to, log: self.log }
    }
}

impl TryState for Lift {
    type Error = String;

    fn try_entry(&mut self) -> Result<(), String> {
        self.log.push("entry".to_string());
        Ok(())
    }

    fn try_execute(&mut self) -> Result<(), String> {
        self.log.push("execute".to_string());
        if self.floor >= self.top {
            return Err("above the top floor".to_string());
        }
        self.floor += 1;
        Ok(())
    }

    fn try_exit(&mut self) -> Result<(), String> {
        self.log.push("exit".to_string());
        Ok(())
    }
}

impl TryTransition<Parked> for Lift {
    type Error = String;

    fn try_entry(&mut self, to: usize) -> Result<(), String> {
        self.log.push(format!("entry {}", to));
        if to == 13 {
            return Err("no entry 13".to_string());
        }
        Ok(())
    }

    fn try_execute(&mut self, to: usize) -> Result<(), String> {
        self.log.push(format!("execute {}", to));
        Ok(())
    }

    fn try_exit(&mut self, to: usize) -> Result<(), String> {
        self.log.push(format!("exit {}", to));
        if to == 14 {
            return Err("no exit 14".to_string());
        }
        Ok(())
    }

    fn guard(&self, to: usize) -> TransitGuard {
        match to {
            7 => self.alarm.into(),
            _ => (self.floor >= self.top).into(),
        }
    }

    fn transit(mut self, to: usize) -> Parked {
        self.log.push(format!("convert {}", to));
        Parked { floor: self.floor, by: to, log: self.log }
    }
}

fn lift(floor: u32, top: u32, alarm: bool) -> Lift {
    Lift { floor, top, alarm, log: Vec::new() }
}

#[test]
fn a_state_without_transition_steps_into_itself() {
    let next = step::<Lift, Parked>(lift(5, 0, true), true, &vec![]);
    match next {
        Stepped::Remain(state) => {
            assert_eq!(state.floor, 6);
            assert_eq!(state.log, vec!["entry", "execute"]);
        }
        Stepped::Transit(_, _) => panic!("a guard fired"),
    }
    let last = stop::<Lift, Parked>(lift(5, 0, true), &vec![]);
    assert_eq!(last.log, vec!["exit"]);
}

#[test]
fn the_hooks_of_every_transition_run_in_order() {
    let next = step::<Lift, Parked>(lift(0, 9, false), true, &vec![3, 7, 4]);
    match next {
        Stepped::Remain(state) => assert_eq!(
            state.log,
            vec!["entry", "entry 3", "entry 7", "entry 4", "execute", "execute 3", "execute 7", "execute 4"]
        ),
        Stepped::Transit(_, _) => panic!("a guard fired"),
    }
    let next = step::<Lift, Parked>(lift(0, 9, false), false, &vec![3, 7]);
    match next {
        Stepped::Remain(state) => assert_eq!(state.log, vec!["execute", "execute 3", "execute 7"]),
        Stepped::Transit(_, _) => panic!("a guard fired"),
    }
    let last = stop::<Lift, Parked>(lift(5, 0, true), &vec![3, 7]);
    assert_eq!(last.log, vec!["exit", "exit 3", "exit 7"]);
}

#[test]
fn the_first_guard_that_fires_wins() {
    match step::<Lift, Parked>(lift(0, 1, true), false, &vec![3, 7]) {
        Stepped::Transit(to, parked) => {
            assert_eq!(to, 3);
            assert_eq!(parked.by, 3);
            assert_eq!(
                parked.log,
                vec!["execute", "execute 3", "execute 7", "exit", "exit 3", "exit 7", "convert 3"]
            );
        }
        Stepped::Remain(_) => panic!("no guard fired"),
    }
    match step::<Lift, Parked>(lift(0, 1, true), false, &vec![7, 3]) {
        Stepped::Transit(to, parked) => {
            assert_eq!(to, 7);
            assert_eq!(parked.by, 7);
        }
        Stepped::Remain(_) => panic!("no guard fired"),
    }
    match step::<Lift, Parked>(lift(0, 9, true), false, &vec![3, 7]) {
        Stepped::Transit(to, _) => assert_eq!(to, 7),
        Stepped::Remain(_) => panic!("no guard fired"),
    }
    match step::<Lift, Parked>(lift(0, 9, false), false, &vec![3, 7]) {
        Stepped::Remain(state) => assert_eq!(state.floor, 1),
        Stepped::Transit(_, _) => panic!("a guard fired"),
    }
}

#[test]
fn a_failing_hook_ends_the_step() {
    match try_step::<Lift, Parked>(lift(3, 3, false), true, &vec![3, 7]) {
        TryStepped::Fault(state, e) => {
            assert_eq!(e, "above the top floor");
            assert_eq!(state.log, vec!["entry", "entry 3", "entry 7", "execute"]);
        }
        _ => panic!("the step did not fail"),
    }
    match try_step::<Lift, Parked>(lift(0, 3, false), true, &vec![3, 13, 7]) {
        TryStepped::Fault(state, e) => {
            assert_eq!(e, "no entry 13");
            assert_eq!(state.log, vec!["entry", "entry 3", "entry 13"]);
        }
        _ => panic!("the step did not fail"),
    }
    match try_step::<Lift, Parked>(lift(0, 1, false), false, &vec![3, 14, 7]) {
        TryStepped::Fault(state, e) => {
            assert_eq!(e, "no exit 14");
            assert_eq!(
                state.log,
                vec!["execute", "execute 3", "execute 14", "execute 7", "exit", "exit 3", "exit 14"]
            );
        }
        _ => panic!("the step did not fail"),
    }
}

#[test]
fn a_step_without_a_fault_is_a_plain_step() {
    match try_step::<Lift, Parked>(lift(0, 1, true), true, &vec![3, 7]) {
        TryStepped::Transit(to, parked) => {
            assert_eq!(to, 3);
            assert_eq!(
                parked.log,
                vec![
                    "entry", "entry 3", "entry 7", "execute", "execute 3", "execute 7", "exit",
                    "exit 3", "exit 7", "convert 3"
                ]
            );
        }
        _ => panic!("no guard fired"),
    }
    match try_step::<Lift, Parked>(lift(0, 9, false), false, &vec![3]) {
        TryStepped::Remain(state) => assert_eq!(state.floor, 1),
        _ => panic!("a guard fired"),
    }
}

#[test]
fn stopping_reports_a_failing_exit() {
    let (state, result) = try_stop::<Lift, Parked>(lift(0, 1, false), &vec![3, 14, 7]);
    assert_eq!(result, Err("no exit 14".to_string()));
    assert_eq!(state.log, vec!["exit", "exit 3", "exit 14"]);
    let (state, result) = try_stop::<Lift, Parked>(lift(0, 1, false), &vec![3, 7]);
    assert_eq!(result, Ok(()));
    assert_eq!(state.log, vec!["exit", "exit 3", "exit 7"]);
}
