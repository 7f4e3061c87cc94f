//! The validated graph of a machine.
//!
//! A declaration names states and transitions; the graph holds them once
//! they fit together. No two states share a variant identifier, and the
//! initial state and both ends of every transition are declared states. A
//! state may be left by several transitions: they keep the order in which
//! they were declared, which is the order in which their guards are asked.

use crate::error::DeclarationError;
use crate::error::yields;
use crate::ident::identifier;
use crate::ident::is_identifier;
use crate::ident::union_name;
use crate::types::State;
use crate::types::state_views;
use crate::types::StateView;
use crate::types::Transition;
use crate::types::transition_views;
use crate::types::TransitionView;
use vstd::prelude::*;

verus! {

/// The first place at or after `from` where `state` stands among `states`.
pub open spec fn position(states: Seq<StateView>, state: StateView, from: int) -> Option<int>
    decreases states.len() - from,
{
    if from < 0 || from >= states.len() {
        None
    } else if states[from].same(state) {
        Some(from)
    } else {
        position(states, state, from + 1)
    }
}

/// Whether `state` is one of `states`.
pub open spec fn declared(states: Seq<StateView>, state: StateView) -> bool {
    exists|i: int| 0 <= i < states.len() && (#[trigger] states[i]).same(state)
}

/// Whether no two of `states` share a variant identifier.
pub open spec fn distinct(states: Seq<StateView>) -> bool {
    forall|i: int, j: int|
        0 <= i < j < states.len() ==> (#[trigger] states[i]).enum_name != (
        #[trigger] states[j]).enum_name
}

/// Whether both ends of every transition are among `states`.
pub open spec fn closed_over(states: Seq<StateView>, transitions: Seq<TransitionView>) -> bool {
    forall|t: int|
        0 <= t < transitions.len() ==> declared(states, (#[trigger] transitions[t]).src)
            && declared(states, transitions[t].dst)
}

/// Whether every state is well formed.
pub open spec fn all_wf(states: Seq<StateView>) -> bool {
    forall|i: int| 0 <= i < states.len() ==> (#[trigger] states[i]).wf()
}

/// The places of the states that the state at place `i` is left for, one
/// for each transition that leaves it, in the order of the transitions.
pub open spec fn targets_in(
    states: Seq<StateView>,
    transitions: Seq<TransitionView>,
    i: int,
) -> Seq<usize>
    decreases transitions.len(),
{
    if transitions.len() == 0 {
        Seq::empty()
    } else {
        let earlier = targets_in(states, transitions.drop_last(), i);
        if transitions.last().src.same(states[i]) {
            earlier.push(position(states, transitions.last().dst, 0).unwrap() as usize)
        } else {
            earlier
        }
    }
}

/// What a [`Machine`] stands for.
pub struct MachineView {
    /// The machine's name.
    pub name: Seq<char>,
    /// The name of its tagged union.
    pub enum_name: Seq<char>,
    /// The state in which it starts.
    pub init: StateView,
    /// Its states, in the order of the declaration.
    pub states: Seq<StateView>,
    /// Its transitions, in the order of the declaration.
    pub transitions: Seq<TransitionView>,
}

impl MachineView {
    /// Whether the parts fit together.
    pub open spec fn wf(self) -> bool {
        &&& is_identifier(self.name)
        &&& self.enum_name == union_name(self.name)
        &&& all_wf(self.states)
        &&& distinct(self.states)
        &&& declared(self.states, self.init)
        &&& closed_over(self.states, self.transitions)
    }

    /// The place of the initial state among the states.
    pub open spec fn initial(self) -> int {
        position(self.states, self.init, 0).unwrap()
    }

    /// The places of the states that the state at place `i` is left for,
    /// in the order of the transitions that leave it.
    pub open spec fn targets(self, i: int) -> Seq<usize> {
        targets_in(self.states, self.transitions, i)
    }
}

/// The graph that the parts of a declaration make, or what keeps them from
/// making one. The checks are made in this order: the name, the variant
/// identifiers, the initial state, the ends of the transitions.
pub open spec fn validated(
    name: Seq<char>,
    init: StateView,
    states: Seq<StateView>,
    transitions: Seq<TransitionView>,
) -> Result<MachineView, DeclarationError> {
    if !is_identifier(name) {
        Err(DeclarationError::Identifier)
    } else if !distinct(states) {
        Err(DeclarationError::Collision)
    } else if !declared(states, init) || !closed_over(states, transitions) {
        Err(DeclarationError::UndeclaredState)
    } else {
        Ok(MachineView { name, enum_name: union_name(name), init, states, transitions })
    }
}

/// `position` finds the first place of a state, and finds none only where
/// there is none.
pub proof fn lemma_position(states: Seq<StateView>, state: StateView, from: int)
    requires
        0 <= from,
    ensures
        match position(states, state, from) {
            Some(k) => from <= k < states.len() && states[k].same(state) && forall|j: int|
                from <= j < k ==> !(#[trigger] states[j]).same(state),
            None => forall|j: int| from <= j < states.len() ==> !(#[trigger] states[j]).same(state),
        },
    decreases states.len() - from,
{
    if from < states.len() && !states[from].same(state) {
        lemma_position(states, state, from + 1);
    }
}

/// A state is declared exactly where `position` finds it.
pub proof fn lemma_declared_position(states: Seq<StateView>, state: StateView)
    ensures
        declared(states, state) <==> position(states, state, 0) is Some,
{
    lemma_position(states, state, 0);
}

/// In a valid graph every transition leads to a state of the graph.
pub proof fn lemma_targets_declared(
    states: Seq<StateView>,
    transitions: Seq<TransitionView>,
    i: int,
)
    requires
        closed_over(states, transitions),
    ensures
        forall|k: int|
            0 <= k < targets_in(states, transitions, i).len() ==> (#[trigger] targets_in(
                states,
                transitions,
                i,
            )[k]) < states.len(),
        targets_in(states, transitions, i).len() <= transitions.len(),
    decreases transitions.len(),
{
    if transitions.len() > 0 {
        let earlier = transitions.drop_last();
        assert forall|t: int| 0 <= t < earlier.len() implies declared(
            states,
            (#[trigger] earlier[t]).src,
        ) && declared(states, earlier[t].dst) by {
            assert(earlier[t] == transitions[t]);
        }
        lemma_targets_declared(states, earlier, i);
        assert(transitions.last() == transitions[transitions.len() - 1]);
        lemma_declared_position(states, transitions.last().dst);
        lemma_position(states, transitions.last().dst, 0);
    }
}

/// The transitions that leave a state are those that name it as their
/// source: a transition leaves the state at place `i` exactly if its source
/// is found at place `i`.
pub proof fn lemma_source_place(states: Seq<StateView>, source: StateView, i: int)
    requires
        all_wf(states),
        distinct(states),
        0 <= i < states.len(),
        declared(states, source),
    ensures
        source.same(states[i]) <==> position(states, source, 0) == Some(i),
{
    lemma_declared_position(states, source);
    lemma_position(states, source, 0);
    let p = position(states, source, 0).unwrap();
    if source.same(states[i]) && p != i {
        assert(states[p].same(states[i]));
        assert(states[p].wf() && states[i].wf());
        assert(states[p].enum_name == states[i].enum_name);
    }
}

/// What validation lets through fits together: the initial state and both
/// ends of every transition are declared states, and no two states share a
/// variant identifier.
pub proof fn lemma_validated_fits(
    name: Seq<char>,
    init: StateView,
    states: Seq<StateView>,
    transitions: Seq<TransitionView>,
)
    requires
        all_wf(states),
    ensures
        validated(name, init, states, transitions) matches Ok(machine) ==> machine.wf()
            && machine.states == states && machine.transitions == transitions && 0
            <= machine.initial() < states.len() && states[machine.initial()].same(init),
{
    lemma_position(states, init, 0);
}

/// The place that an optional index stands for.
pub open spec fn option_place(place: Option<usize>) -> Option<int> {
    match place {
        Some(p) => Some(p as int),
        None => None,
    }
}

/// The first place where `state` stands among `states`.
pub fn find(states: &Vec<State>, state: &State) -> (place: Option<usize>)
    ensures
        option_place(place) == position(state_views(states@), state@, 0),
{
    let mut i: usize = 0;
    while i < states.len()
        invariant
            i <= states.len(),
            position(state_views(states@), state@, 0) == position(
                state_views(states@),
                state@,
                i as int,
            ),
        decreases states.len() - i,
    {
        if states[i].same(state) {
            return Some(i);
        }
        i += 1;
    }
    None
}

/// Whether no two of `states` share a variant identifier. On the way every
/// state is seen to be well formed.
pub fn all_distinct(states: &Vec<State>) -> (b: bool)
    ensures
        b == distinct(state_views(states@)),
        all_wf(state_views(states@)),
{
    let ghost views = state_views(states@);
    let n = states.len();
    let mut unique = true;
    let mut i: usize = 0;
    while i < n
        invariant
            n == states.len(),
            views == state_views(states@),
            i <= n,
            forall|k: int| 0 <= k < i ==> (#[trigger] views[k]).wf(),
            unique <==> forall|a: int, b: int|
                0 <= a < b < n && a < i ==> (#[trigger] views[a]).enum_name != (
                #[trigger] views[b]).enum_name,
        decreases n - i,
    {
        let _ = states[i].enum_name();
        let mut j: usize = i + 1;
        while j < n
            invariant
                n == states.len(),
                views == state_views(states@),
                i < j <= n,
                unique <==> forall|a: int, b: int|
                    0 <= a < b < n && (a < i || (a == i && b < j)) ==> (
                    #[trigger] views[a]).enum_name != (#[trigger] views[b]).enum_name,
            decreases n - j,
        {
            assert(views[i as int] == states[i as int]@ && views[j as int] == states[j as int]@);
            if states[i].same_variant(&states[j]) {
                unique = false;
            }
            j += 1;
        }
        i += 1;
    }
    unique
}

/// For every transition the places of its source and of its destination.
/// There is no answer where an end of a transition is not among `states`.
pub fn resolve(states: &Vec<State>, transitions: &Vec<Transition>) -> (edges: Option<
    Vec<(usize, usize)>,
>)
    ensures
        edges is Some <==> closed_over(state_views(states@), transition_views(transitions@)),
        edges matches Some(found) ==> resolved(
            state_views(states@),
            transition_views(transitions@),
            found@,
        ),
{
    let ghost views = state_views(states@);
    let ghost ends = transition_views(transitions@);
    let mut edges: Vec<(usize, usize)> = Vec::new();
    let mut t: usize = 0;
    while t < transitions.len()
        invariant
            t <= transitions.len(),
            views == state_views(states@),
            ends == transition_views(transitions@),
            edges.len() == t,
            forall|k: int|
                0 <= k < t ==> declared(views, (#[trigger] ends[k]).src) && declared(
                    views,
                    ends[k].dst,
                ),
            forall|k: int|
                0 <= k < t ==> position(views, ends[k].src, 0) == Some(
                    (#[trigger] edges[k]).0 as int,
                ) && position(views, ends[k].dst, 0) == Some(edges[k].1 as int),
        decreases transitions.len() - t,
    {
        proof {
            lemma_declared_position(views, ends[t as int].src);
            lemma_declared_position(views, ends[t as int].dst);
        }
        let from = match find(states, &transitions[t].src) {
            None => {
                return None;
            },
            Some(place) => place,
        };
        let to = match find(states, &transitions[t].dst) {
            None => {
                return None;
            },
            Some(place) => place,
        };
        edges.push((from, to));
        t += 1;
    }
    Some(edges)
}

/// Whether `edges` holds, for every transition, the places of its source
/// and of its destination among `states`.
pub open spec fn resolved(
    states: Seq<StateView>,
    transitions: Seq<TransitionView>,
    edges: Seq<(usize, usize)>,
) -> bool {
    &&& edges.len() == transitions.len()
    &&& forall|t: int|
        0 <= t < transitions.len() ==> position(states, transitions[t].src, 0) == Some(
            (#[trigger] edges[t]).0 as int,
        ) && position(states, transitions[t].dst, 0) == Some(edges[t].1 as int)
}

/// The validated graph of a machine.
#[derive(Debug)]
pub struct Machine {
    name: String,
    enum_name: String,
    init: State,
    states: Vec<State>,
    transitions: Vec<Transition>,
    start: usize,
    edges: Vec<(usize, usize)>,
}

impl View for Machine {
    type V = MachineView;

    closed spec fn view(&self) -> MachineView {
        MachineView {
            name: self.name@,
            enum_name: self.enum_name@,
            init: self.init@,
            states: state_views(self.states@),
            transitions: transition_views(self.transitions@),
        }
    }
}

impl Machine {
    /// The parts fit together, and the places that are kept are those that
    /// the parts give.
    #[verifier::type_invariant]
    spec fn inv(self) -> bool {
        &&& self@.wf()
        &&& self.start == self@.initial()
        &&& resolved(self@.states, self@.transitions, self.edges@)
    }

    /// The name of the tagged union of the machine `sfsm_name`.
    pub fn enum_name(sfsm_name: &str) -> (name: String)
        ensures
            name@ == union_name(sfsm_name@),
    {
        let mut name = String::from_str(sfsm_name);
        name.append("States");
        name
    }

    /// Validates the parts of a declaration and makes the graph of them.
    pub fn new(name: &str, init: State, states: Vec<State>, transitions: Vec<Transition>) -> (r:
        Result<Machine, DeclarationError>)
        ensures
            yields(
                r,
                validated(name@, init@, state_views(states@), transition_views(transitions@)),
            ),
    {
        if !identifier(name) {
            return Err(DeclarationError::Identifier);
        }
        if !all_distinct(&states) {
            return Err(DeclarationError::Collision);
        }
        proof {
            lemma_declared_position(state_views(states@), init@);
            lemma_position(state_views(states@), init@, 0);
        }
        let start = match find(&states, &init) {
            None => {
                return Err(DeclarationError::UndeclaredState);
            },
            Some(place) => place,
        };
        match resolve(&states, &transitions) {
            None => Err(DeclarationError::UndeclaredState),
            Some(edges) => Ok(
                Machine {
                    name: String::from_str(name),
                    enum_name: Machine::enum_name(name),
                    init,
                    states,
                    transitions,
                    start,
                    edges,
                },
            ),
        }
    }

    /// Whether `name` is the machine's name.
    pub fn is_named(&self, name: &String) -> (same: bool)
        ensures
            same == (self@.name == name@),
    {
        self.name == *name
    }

    /// The machine's name.
    pub fn name(&self) -> (name: &str)
        ensures
            name@ == self@.name,
    {
        self.name.as_str()
    }

    /// The name of the machine's tagged union.
    pub fn union_name(&self) -> (name: &str)
        ensures
            name@ == self@.enum_name,
            self@.wf(),
    {
        proof {
            use_type_invariant(self);
        }
        self.enum_name.as_str()
    }

    /// The state in which the machine starts.
    pub fn init(&self) -> (state: &State)
        ensures
            state@ == self@.init,
    {
        &self.init
    }

    /// The states, in the order of the declaration.
    pub fn states(&self) -> (states: &Vec<State>)
        ensures
            state_views(states@) == self@.states,
    {
        &self.states
    }

    /// The transitions, in the order of the declaration.
    pub fn transitions(&self) -> (transitions: &Vec<Transition>)
        ensures
            transition_views(transitions@) == self@.transitions,
    {
        &self.transitions
    }

    /// The number of states.
    pub fn len(&self) -> (n: usize)
        ensures
            n == self@.states.len(),
    {
        self.states.len()
    }

    /// The place of the initial state among the states.
    pub fn initial(&self) -> (place: usize)
        ensures
            place == self@.initial(),
            place < self@.states.len(),
            self@.wf(),
    {
        proof {
            use_type_invariant(self);
            lemma_position(self@.states, self@.init, 0);
        }
        self.start
    }

    /// The places of the states that the state at place `i` is left for,
    /// one for each transition that leaves it, in the order in which the
    /// transitions were declared.
    pub fn targets(&self, i: usize) -> (places: Vec<usize>)
        requires
            i < self@.states.len(),
        ensures
            places@ == self@.targets(i as int),
            forall|k: int| 0 <= k < places.len() ==> (#[trigger] places[k]) < self@.states.len(),
            self@.wf(),
    {
        proof {
            use_type_invariant(self);
            lemma_targets_declared(self@.states, self@.transitions, i as int);
        }
        let ghost states = self@.states;
        let ghost ends = self@.transitions;
        let mut places: Vec<usize> = Vec::new();
        let mut t: usize = 0;
        assert(ends.take(0) == Seq::<TransitionView>::empty());
        while t < self.edges.len()
            invariant
                t <= self.edges.len(),
                states == self@.states,
                ends == self@.transitions,
                self@.wf(),
                i < states.len(),
                resolved(states, ends, self.edges@),
                places@ == targets_in(states, ends.take(t as int), i as int),
            decreases self.edges.len() - t,
        {
            proof {
                let now = ends.take(t + 1);
                assert(now.drop_last() == ends.take(t as int));
                assert(now.last() == ends[t as int]);
                lemma_source_place(states, ends[t as int].src, i as int);
            }
            if self.edges[t].0 == i {
                places.push(self.edges[t].1);
            }
            t += 1;
        }
        proof {
            assert(ends.take(self.edges.len() as int) == ends);
        }
        places
    }

    /// The place of `state` among the states, if it is one of them.
    pub fn place_of(&self, state: &State) -> (place: Option<usize>)
        ensures
            option_place(place) == position(self@.states, state@, 0),
            place matches Some(p) ==> p < self@.states.len(),
    {
        proof {
            lemma_position(self@.states, state@, 0);
        }
        find(&self.states, state)
    }
}

} // verus!
