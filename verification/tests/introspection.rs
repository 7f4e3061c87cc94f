use sfsm::tagged::is_state;
use sfsm::tagged::match_state_entry;
use sfsm::tagged::Tagged;
use sfsm::types::MatchStateEntry;
use sfsm::types::StateEntry;
use sfsm::DeclarationError;

fn moving_up(slot: Option<u32>) -> Tagged<u32> {
    Tagged {
        enum_name: "ElevatorStates".to_string(),
        variant: "MoveUpState".to_string(),
        index: 0,
        slot,
    }
}

#[test]
fn a_union_stands_at_one_branch() {
    let union = moving_up(Some(7));
    assert!(union.at(&StateEntry::parse("Elevator, Move<Up>").unwrap()));
    assert!(union.at(&StateEntry::parse("Elevator, MoveUp").unwrap()));
    assert!(!union.at(&StateEntry::parse("Elevator, Move<Down>").unwrap()));
    assert!(!union.at(&StateEntry::parse("Crane, Move<Up>").unwrap()));
}

#[test]
fn is_state_reads_the_branch_from_a_declaration() {
    let union = moving_up(None);
    assert_eq!(is_state("Elevator, Move<Up>", &union), Ok(true));
    assert_eq!(is_state("Elevator, Move<Down>", &union), Ok(false));
    assert_eq!(is_state("Elevator", &union), Err(DeclarationError::Syntax { at: 8 }));
    assert_eq!(is_state("Elevator, Move<Up", &union), Err(DeclarationError::Parameters));
}

#[test]
fn match_state_entry_hands_out_the_slot() {
    let union = moving_up(Some(7));
    assert_eq!(match_state_entry("Elevator, Move<Up>, state", &union), Ok(Some(&Some(7))));
    assert_eq!(match_state_entry("Elevator, Move<Down>, state", &union), Ok(None));
    assert_eq!(
        match_state_entry("Elevator, Move<Up>", &union),
        Err(DeclarationError::Syntax { at: 18 })
    );
    let empty = moving_up(None);
    assert_eq!(match_state_entry("Elevator, Move<Up>, state", &empty), Ok(Some(&None)));
    let entry = MatchStateEntry::parse("Elevator, Move<Up>, state").unwrap();
    assert_eq!(union.entry(&entry), Some(&Some(7)));
}

#[test]
fn a_union_is_tagged_by_place() {
    let machine = sfsm::machine::Machine::parse("Elevator, A, [A, B<T>], []").unwrap();
    let union = Tagged::of(&machine, 1, Some(3u32));
    assert_eq!(union.enum_name, "ElevatorStates");
    assert_eq!(union.variant, "BTState");
    assert_eq!(union.index, 1);
    assert_eq!(union.slot, Some(3));
}
