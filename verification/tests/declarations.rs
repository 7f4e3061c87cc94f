use sfsm::machine::all_distinct;
use sfsm::machine::find;
use sfsm::machine::resolve;
use sfsm::outside::MAX_PARAMETERS;
use sfsm::machine::Machine;
use sfsm::parsers::add_messages;
use sfsm::source::Source;
use sfsm::types::MatchStateEntry;
use sfsm::types::Message;
use sfsm::types::MessageDir;
use sfsm::types::Messages;
use sfsm::types::State;
use sfsm::types::StateEntry;
use sfsm::types::StateMessage;
use sfsm::types::Transition;
use sfsm::DeclarationError;

#[test]
fn state_without_parameters() {
    let state = State::parse("Foo").unwrap().0;
    assert_eq!(state.name(), "Foo");
    assert_eq!(state.generics(), &None);
    assert_eq!(state.enum_name(), "FooState");
}

#[test]
fn state_with_parameters() {
    let state = State::parse("Move<Up>").unwrap().0;
    assert_eq!(state.name(), "Move");
    assert_eq!(state.generics(), &Some("< Up >".to_string()));
    assert_eq!(state.enum_name(), "MoveUpState");
}

#[test]
fn state_with_nested_parameters() {
    let state = State::parse("Foo<'a, Bar<u8>>").unwrap().0;
    assert_eq!(state.name(), "Foo");
    assert_eq!(state.generics(), &Some("< 'a , Bar < u8 > >".to_string()));
    assert_eq!(state.enum_name(), "FooABaru8State");
    assert_eq!(State::parse("Foo<(A, B)>").err(), Some(DeclarationError::Identifier));
    assert_eq!(State::parse("Foo<fn(A) -> B>").err(), Some(DeclarationError::Identifier));
    let slice = State::parse("Foo<[A]>").unwrap().0;
    assert_eq!(slice.enum_name(), "FooAState");
}

#[test]
fn a_state_is_read_from_the_beginning_and_the_rest_is_left() {
    let (state, next) = State::parse("Bar<T> => Foo").unwrap();
    assert_eq!(state.name(), "Bar");
    assert_eq!(state.generics(), &Some("< T >".to_string()));
    assert_eq!(state.enum_name(), "BarTState");
    assert_eq!(next, 4);
    assert_eq!(Source::new("Bar<T> => Foo").offset(next), 7);
    let (state, next) = State::parse("Foo Bar").unwrap();
    assert_eq!((state.name(), next), ("Foo", 1));
    let (state, next) = State::parse("Foo,").unwrap();
    assert_eq!((state.name(), next), ("Foo", 1));
    let (state, next) = State::parse("  Foo  ").unwrap();
    assert_eq!((state.name(), next), ("Foo", 1));
    let (transition, next) = Transition::parse("Foo => Bar Baz").unwrap();
    assert_eq!(transition.dst.name(), "Bar");
    assert_eq!(next, 4);
    let (message, next) = Message::parse("Status <- Load").unwrap();
    assert_eq!(message.name, "Status");
    assert_eq!(message.generics, None);
    assert_eq!(next, 1);
    let (message, next) = Message::parse("Command<-").unwrap();
    assert_eq!((message.name.as_str(), message.generics, next), ("Command", None, 1));
    let (message, next) = Message::parse("Status<u8> <- Load").unwrap();
    assert_eq!((message.generics, next), (Some("< u8 >".to_string()), 4));
    let (binding, next) = StateMessage::parse("Command -> Load, Status <- Load").unwrap();
    assert_eq!(binding.state.name(), "Load");
    assert_eq!(next, 4);
}

#[test]
fn state_syntax_errors() {
    assert_eq!(State::parse("").err(), Some(DeclarationError::Syntax { at: 0 }));
    assert_eq!(State::parse(", Foo").err(), Some(DeclarationError::Syntax { at: 0 }));
    assert_eq!(State::parse("struct").err(), Some(DeclarationError::Identifier));
    assert_eq!(State::parse("1abc").err(), Some(DeclarationError::Identifier));
}

#[test]
fn parameter_list_errors() {
    assert_eq!(State::parse("Foo<A").err(), Some(DeclarationError::Parameters));
    assert_eq!(State::parse("Foo<A]>").err(), Some(DeclarationError::Parameters));
    assert_eq!(State::parse("Foo<A B>").err(), Some(DeclarationError::Parameters));
    assert_eq!(State::parse("Foo<A, => Bar").err(), Some(DeclarationError::Parameters));
    assert_eq!(State::parse("Foo<c\"x\">").err(), Some(DeclarationError::Parameters));
    assert_eq!(State::parse("Foo<\"x\">").err(), Some(DeclarationError::Parameters));
    assert_eq!(State::parse("Foo<'\\n'>").err(), Some(DeclarationError::Parameters));
    assert_eq!(
        Machine::parse("M, A, [A, B<c\"x\">], []").err(),
        Some(DeclarationError::Parameters)
    );
    assert_eq!(State::parse("Foo<(/*ERROR*/)>").err(), Some(DeclarationError::Parameters));
    assert_eq!(State::parse("Foo<A /* b */>").err(), Some(DeclarationError::Parameters));
    assert_eq!(State::parse("Foo<{ 4 / 2 }>").err(), Some(DeclarationError::Parameters));
    let long = format!("Foo<{}>", "A".repeat(63));
    assert_eq!(State::parse(&long).err(), Some(DeclarationError::Parameters));
    let fits = format!("Foo<{}>", "A".repeat(62));
    assert!(State::parse(&fits).is_ok());
}

#[test]
fn closing_bracket_is_found() {
    let source = Source::new("Foo<A, Bar<B>, [C; 2], fn(D) -> E> rest");
    assert_eq!(source.len(), 24);
    assert!(source.mark(1, '<'));
    assert_eq!(source.closing_angle(1), Some(22));
    assert_eq!(source.closing_angle(5), Some(7));
    let open = Source::new("Foo<A, Bar<B>");
    assert_eq!(open.closing_angle(1), None);
    assert_eq!(open.closing_angle(5), Some(7));
    assert_eq!(open.closing_angle(100), None);
}

#[test]
fn source_answers_by_token() {
    let source = Source::new("Ab -> cd <- e");
    assert_eq!(source.len(), 7);
    assert!(source.word(0) && !source.word(1) && !source.word(7));
    assert!(source.mark(1, '-') && !source.mark(1, '>') && !source.mark(0, 'A'));
    assert!(source.arrow(1, '-', '>'));
    assert!(source.arrow(4, '<', '-'));
    assert!(!source.arrow(2, '>', 'c'));
    assert_eq!(source.offset(3), 6);
    assert_eq!(source.offset(7), 13);
    assert_eq!(source.slice(6, 8), "cd");
    assert!(source.unbarred(0, 13));
    let quoted = Source::new("a<\"b\", 'c', '\\n'>");
    assert!(!quoted.unbarred(0, 5) && quoted.unbarred(5, 12) && !quoted.unbarred(12, 18));
    assert!(!Source::new("a</>").unbarred(0, 4));
    let apart = Source::new("a - > b");
    assert!(!apart.arrow(1, '-', '>'));
    assert_eq!(source.ident_at(0), Ok(("Ab".to_string(), 1)));
    assert_eq!(source.ident_at(1), Err(DeclarationError::Syntax { at: 3 }));
    assert_eq!(source.generics_at(1, false), Ok((None, 1)));
    assert_eq!(source.parameters_at(4), Err(DeclarationError::Parameters));
}

#[test]
fn transition_needs_its_arrow() {
    let transition = Transition::parse("Foo => Bar<T>").unwrap().0;
    assert_eq!(transition.src.enum_name(), "FooState");
    assert_eq!(transition.dst.enum_name(), "BarTState");
    let apart = Transition::parse("Foo<T> = > Bar").unwrap().0;
    assert_eq!(apart.src.enum_name(), "FooTState");
    assert_eq!(Transition::parse("Foo -> Bar").err(), Some(DeclarationError::Syntax { at: 4 }));
    assert_eq!(Transition::parse("Foo = Bar").err(), Some(DeclarationError::Syntax { at: 6 }));
    assert_eq!(Transition::parse("Foo =>").err(), Some(DeclarationError::Syntax { at: 6 }));
}

#[test]
fn machine_declaration() {
    let machine =
        Machine::parse("Elevator, Move<Up>, [Move<Up>, Move<Down>], [Move<Up> => Move<Down>]")
            .unwrap();
    assert_eq!(machine.name(), "Elevator");
    assert_eq!(machine.union_name(), "ElevatorStates");
    assert_eq!(machine.init().enum_name(), "MoveUpState");
    assert_eq!(machine.len(), 2);
    assert_eq!(machine.states()[0].enum_name(), "MoveUpState");
    assert_eq!(machine.states()[1].enum_name(), "MoveDownState");
    assert_eq!(machine.transitions().len(), 1);
    assert_eq!(machine.initial(), 0);
    assert_eq!(machine.targets(0), vec![1]);
    assert_eq!(machine.targets(1), vec![]);
    assert_eq!(machine.place_of(&State::parse("Move<Down>").unwrap().0), Some(1));
    assert_eq!(machine.place_of(&State::parse("Move").unwrap().0), None);
}

#[test]
fn lists_may_be_empty_and_may_end_in_a_comma() {
    let machine = Machine::parse("M, B, [A, B, C,], []").unwrap();
    assert_eq!(machine.len(), 3);
    assert_eq!(machine.initial(), 1);
    assert_eq!(machine.transitions().len(), 0);
    let other = Machine::parse("M, A, [A, B], [A => B, B => A,]").unwrap();
    assert_eq!(other.targets(0), vec![1]);
    assert_eq!(other.targets(1), vec![0]);
    assert_eq!(Machine::parse("M, A, [], []").err(), Some(DeclarationError::UndeclaredState));
}

#[test]
fn machine_syntax_errors() {
    assert_eq!(Machine::parse("").err(), Some(DeclarationError::Syntax { at: 0 }));
    assert_eq!(Machine::parse("M").err(), Some(DeclarationError::Syntax { at: 1 }));
    assert_eq!(Machine::parse("M A").err(), Some(DeclarationError::Syntax { at: 2 }));
    assert_eq!(Machine::parse("M, A, A, []").err(), Some(DeclarationError::Syntax { at: 6 }));
    assert_eq!(Machine::parse("M, A, (A), []").err(), Some(DeclarationError::Syntax { at: 6 }));
    assert_eq!(Machine::parse("M, A, [A B], []").err(), Some(DeclarationError::Syntax { at: 9 }));
    assert_eq!(Machine::parse("M, A, [A,, B], []").err(), Some(DeclarationError::Syntax { at: 9 }));
    assert_eq!(Machine::parse("M, A, [A, B").err(), Some(DeclarationError::Syntax { at: 11 }));
    assert_eq!(Machine::parse("M, A, [A] []").err(), Some(DeclarationError::Syntax { at: 10 }));
    assert_eq!(Machine::parse("M, A, [A], [A -> A]").err(), Some(DeclarationError::Syntax { at: 14 }));
    assert_eq!(Machine::parse("M, A, [A], [],").err(), Some(DeclarationError::Syntax { at: 13 }));
    assert_eq!(Machine::parse("M, A, [A], [] x").err(), Some(DeclarationError::Syntax { at: 14 }));
    assert_eq!(Machine::parse("fn, A, [A], []").err(), Some(DeclarationError::Identifier));
}

#[test]
fn undeclared_state_is_refused() {
    assert_eq!(Machine::parse("M, A, [A, B], [A => C]").err(), Some(DeclarationError::UndeclaredState));
    assert_eq!(Machine::parse("M, A, [A, B], [C => A]").err(), Some(DeclarationError::UndeclaredState));
    assert_eq!(Machine::parse("M, C, [A, B], [A => B]").err(), Some(DeclarationError::UndeclaredState));
    assert_eq!(Machine::parse("M, A<T>, [A, B], []").err(), Some(DeclarationError::UndeclaredState));
}

#[test]
fn colliding_states_are_refused() {
    assert_eq!(Machine::parse("M, A, [A, B, A], []").err(), Some(DeclarationError::Collision));
    assert_eq!(Machine::parse("M, FooA, [Foo<A>, FooA], []").err(), Some(DeclarationError::Collision));
}

#[test]
fn transitions_from_one_state_keep_their_order() {
    let machine = Machine::parse("M, A, [A, B, C], [A => C, A => B]").unwrap();
    assert_eq!(machine.targets(0), vec![2, 1]);
    assert_eq!(machine.targets(1), vec![]);
    assert_eq!(machine.targets(2), vec![]);
    let machine = Machine::parse("M, A, [A, B, C], [A => B, B => C, A => C, A => B, C => C]");
    let machine = machine.unwrap();
    assert_eq!(machine.targets(0), vec![1, 2, 1]);
    assert_eq!(machine.targets(1), vec![2]);
    assert_eq!(machine.targets(2), vec![2]);
    assert_eq!(machine.transitions().len(), 5);
}

#[test]
fn faults_are_found_in_a_fixed_order() {
    assert_eq!(Machine::parse("M, X, [A, A], [A => Y, A => A]").err(), Some(DeclarationError::Collision));
    assert_eq!(
        Machine::parse("M, A, [A, B], [A => B, A => B, A => Y]").err(),
        Some(DeclarationError::UndeclaredState)
    );
    assert_eq!(Machine::parse("M, X, [A, B], [A => Y]").err(), Some(DeclarationError::UndeclaredState));
}

#[test]
fn validation_by_parts() {
    let a = || State::parse("A").unwrap().0;
    let b = || State::parse("B").unwrap().0;
    let c = || State::parse("C").unwrap().0;
    let states = vec![a(), b(), c()];
    assert_eq!(find(&states, &b()), Some(1));
    assert_eq!(find(&states, &State::parse("D").unwrap().0), None);
    assert!(all_distinct(&states));
    assert!(!all_distinct(&vec![a(), b(), a()]));
    let edges = vec![Transition { src: a(), dst: c() }, Transition { src: c(), dst: c() }];
    assert_eq!(resolve(&states, &edges), Some(vec![(0, 2), (2, 2)]));
    assert_eq!(resolve(&vec![a(), b()], &edges), None);
    let twice = vec![Transition { src: a(), dst: c() }, Transition { src: a(), dst: b() }];
    assert_eq!(resolve(&states, &twice), Some(vec![(0, 2), (0, 1)]));
    let machine = Machine::new("M", b(), states, edges).unwrap();
    assert_eq!(machine.initial(), 1);
    assert_eq!(machine.targets(0), vec![2]);
    assert_eq!(machine.targets(1), vec![]);
    assert_eq!(machine.targets(2), vec![2]);
    assert_eq!(Machine::new("let", a(), vec![a()], vec![]).err(), Some(DeclarationError::Identifier));
}

#[test]
fn message_with_and_without_parameters() {
    let plain = Message::parse("Command").unwrap().0;
    assert_eq!(plain.name, "Command");
    assert_eq!(plain.generics, None);
    let generic = Message::parse("Command<u8>").unwrap().0;
    assert_eq!(generic.name, "Command");
    assert_eq!(generic.generics, Some("< u8 >".to_string()));
}

#[test]
fn binding_directions() {
    let push = StateMessage::parse("Command -> Load").unwrap().0;
    assert!(matches!(&push.message, MessageDir::Push(m) if m.name == "Command"));
    assert_eq!(push.state.enum_name(), "LoadState");
    let poll = StateMessage::parse("Status <- Load<T>").unwrap().0;
    assert!(matches!(&poll.message, MessageDir::Poll(m) if m.name == "Status"));
    assert_eq!(poll.state.enum_name(), "LoadTState");
    let tight = StateMessage::parse("Status<-Load").unwrap().0;
    assert!(matches!(&tight.message, MessageDir::Poll(m) if m.generics.is_none()));
    let generic = StateMessage::parse("Status<u8><-Load").unwrap().0;
    assert!(
        matches!(&generic.message, MessageDir::Poll(m) if m.generics == Some("< u8 >".to_string()))
    );
}

#[test]
fn binding_without_direction() {
    assert_eq!(StateMessage::parse("Command Load").err(), Some(DeclarationError::Direction { at: 8 }));
    assert_eq!(StateMessage::parse("Command - > Load").err(), Some(DeclarationError::Direction { at: 8 }));
    assert_eq!(StateMessage::parse("Command < - Load").err(), Some(DeclarationError::Direction { at: 8 }));
    assert_eq!(StateMessage::parse("Command => Load").err(), Some(DeclarationError::Direction { at: 8 }));
    assert_eq!(StateMessage::parse("Command").err(), Some(DeclarationError::Direction { at: 7 }));
    assert_eq!(StateMessage::parse("Command ->").err(), Some(DeclarationError::Syntax { at: 10 }));
}

#[test]
fn messages_declaration() {
    let messages = Messages::parse("Loader, [Command -> Load, Status <- Load]").unwrap();
    assert_eq!(messages.name, "Loader");
    assert_eq!(messages.enum_name, "LoaderStates");
    assert_eq!(messages.messages.len(), 2);
    assert!(matches!(messages.messages[0].message, MessageDir::Push(_)));
    assert!(matches!(messages.messages[1].message, MessageDir::Poll(_)));
    assert_eq!(Messages::parse("Loader, []").unwrap().messages.len(), 0);
    assert_eq!(Messages::parse("Loader [ ]").err(), Some(DeclarationError::Syntax { at: 7 }));
    assert_eq!(Messages::parse("Loader, [A -> B] C").err(), Some(DeclarationError::Syntax { at: 17 }));
}

#[test]
fn messages_must_fit_their_machine() {
    let machine = Machine::parse("Loader, Load, [Load, Run], [Load => Run]").unwrap();
    let messages = add_messages(&machine, "Loader, [Command -> Load, Status <- Run]").unwrap();
    assert_eq!(messages.messages.len(), 2);
    assert_eq!(
        add_messages(&machine, "Other, [Command -> Load]").err(),
        Some(DeclarationError::UnknownMachine)
    );
    assert_eq!(
        add_messages(&machine, "Loader, [Command -> Load, Status <- Stop]").err(),
        Some(DeclarationError::UndeclaredState)
    );
    assert_eq!(
        add_messages(&machine, "Loader, [Command Load]").err(),
        Some(DeclarationError::Direction { at: 17 })
    );
}

#[test]
fn state_entry_names_union_and_branch() {
    let entry = StateEntry::parse("Elevator, Move<Up>").unwrap();
    assert_eq!(entry.enum_name, "ElevatorStates");
    assert_eq!(entry.state_entry, "MoveUpState");
    assert_eq!(StateEntry::parse("Elevator Move").err(), Some(DeclarationError::Syntax { at: 9 }));
    assert_eq!(StateEntry::parse("Elevator, Move, x").err(), Some(DeclarationError::Syntax { at: 14 }));
}

#[test]
fn match_state_entry_names_a_variable() {
    let entry = MatchStateEntry::parse("Elevator, Move<Up>, state").unwrap();
    assert_eq!(entry.state_entry.enum_name, "ElevatorStates");
    assert_eq!(entry.state_entry.state_entry, "MoveUpState");
    assert_eq!(entry.var_name, "state");
    assert_eq!(MatchStateEntry::parse("Elevator, Move").err(), Some(DeclarationError::Syntax { at: 14 }));
    assert_eq!(MatchStateEntry::parse("Elevator, Move, fn").err(), Some(DeclarationError::Identifier));
}

#[test]
fn every_fault_has_a_message() {
    let faults = [
        DeclarationError::Syntax { at: 0 },
        DeclarationError::Direction { at: 0 },
        DeclarationError::Parameters,
        DeclarationError::Identifier,
        DeclarationError::Collision,
        DeclarationError::UndeclaredState,
        DeclarationError::UnknownMachine,
    ];
    for (i, a) in faults.iter().enumerate() {
        assert!(!a.message().is_empty());
        for b in faults.iter().skip(i + 1) {
            assert_ne!(a.message(), b.message());
        }
    }
    assert_eq!(
        DeclarationError::Direction { at: 3 }.message(),
        "a direction must be specified with either '->' or '<-'"
    );
}


#[test]
fn the_deepest_lists_that_fit_are_parsed() {
    let references = format!("Foo<{}T>", "&".repeat(61));
    assert_eq!(references.chars().count(), MAX_PARAMETERS + 3);
    assert_eq!(State::parse(&references).unwrap().0.enum_name(), "FooTState");
    assert_eq!(
        State::parse(&format!("Foo<{}T>", "&".repeat(62))).err(),
        Some(DeclarationError::Parameters)
    );
    let brackets = format!("Foo<{}T{}>", "(".repeat(30), ")".repeat(30));
    assert_eq!(State::parse(&brackets).err(), Some(DeclarationError::Identifier));
    let squares = format!("Foo<{}T{}>", "[".repeat(30), "]".repeat(30));
    assert_eq!(State::parse(&squares).unwrap().0.enum_name(), "FooTState");
    let angles = format!("Foo<{}T{}>", "A<".repeat(20), ">".repeat(20));
    assert!(State::parse(&angles).is_ok());
    let pointers = format!("Foo<{}T>", "*const ".repeat(8));
    assert_eq!(State::parse(&pointers).err(), Some(DeclarationError::Identifier));
    let braces = format!("Foo<{}1{}>", "{".repeat(30), "}".repeat(30));
    assert!(State::parse(&braces).is_err());
    let negations = format!("Foo<{{{}1}}>", "-".repeat(59));
    assert!(State::parse(&negations).is_err());
    let returns = format!("Foo<{}T>", "fn()->".repeat(10));
    assert_eq!(State::parse(&returns).err(), Some(DeclarationError::Identifier));
}

#[test]
fn a_character_literal_is_passed_over_whole() {
    let source = Source::new("Foo<'>', T> x");
    assert_eq!(source.quoted_end(2), Some(4));
    assert_eq!(source.quoted_end(1), None);
    assert_eq!(source.closing_angle(1), Some(7));
    let (state, next) = State::parse("Foo<'>', T> x").unwrap();
    assert_eq!(state.generics(), &Some("< '>' , T >".to_string()));
    assert_eq!(state.enum_name(), "FooTState");
    assert_eq!(next, 8);
    let blank = Source::new("Foo<' ', '<', ')'>");
    assert_eq!(blank.quoted_end(2), Some(3));
    assert_eq!(blank.closing_angle(1), Some(12));
    let lifetimes = Source::new("Foo<'a, 'b>");
    assert_eq!(lifetimes.quoted_end(2), None);
    assert_eq!(lifetimes.closing_angle(1), Some(7));
    assert_eq!(State::parse("Foo<'a, &'b T>").unwrap().0.enum_name(), "FooAbTState");
    assert_eq!(State::parse("Foo<'a'>").unwrap().0.enum_name(), "FooAState");
}
