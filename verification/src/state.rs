//! The states of a device, the transitions between them, and the machine
//! that follows the device from the lines it prints.

use vstd::prelude::*;
use crate::config::{has_twin_states, has_twin_transitions, twin_states, twin_transitions,
    ConfigError, Property, TransitionAction, TransitionTrigger};
use crate::graph::{add_edge, add_node, arcs_in, arcs_out, builder_arcs, builder_nodes,
    graph_arcs, graph_nodes, incident_edges, into_graph, new_builder};
use crate::matching::{is_usable, test_line, usable, value_matches};
use rs_graph::linkedlistgraph::{LinkedListGraph, LinkedListGraphBuilder};

verus! {

/// A state of the device.
#[derive(Debug, Clone, Default)]
pub struct State {
    pub name: String,
    /// What is applied to the hardware when the state is entered.
    pub properties: Vec<Property>,
    /// The node that stands for the state in the graph of a machine; a
    /// machine gives it out when it is built.
    pub node: Option<usize>,
}

/// A transition as the description of the device gives it.
#[derive(Debug, PartialEq, Clone)]
pub struct Transition {
    pub to: String,
    /// The states the transition leaves; none stands for every state but
    /// `to`.
    pub from: Vec<String>,
    pub actions: Vec<TransitionAction>,
    pub triggers: Vec<TransitionTrigger>,
    /// The edges that a machine made of the transition.
    pub ids: Vec<usize>,
}

/// What a machine keeps of a transition.
#[derive(Debug, Clone, Default)]
pub struct EdgeData {
    pub to: String,
    /// What in the output of the device reveals the transition, and makes
    /// the machine follow it.
    pub actions: Vec<TransitionAction>,
    /// What an operator can do to bring the transition about.
    pub triggers: Vec<TransitionTrigger>,
    /// The edges of the graph that stand for the transition, one for each
    /// state it leaves.
    pub ids: Vec<usize>,
}

/// A state, as contracts speak of it.
pub struct StateView {
    pub name: Seq<char>,
    pub properties: Seq<Property>,
}

/// A transition, as contracts speak of it once a machine holds it: what
/// the description gives of it, and the positions of the edges that were
/// made of it.
pub struct EdgeView {
    pub to: Seq<char>,
    pub actions: Seq<TransitionAction>,
    pub triggers: Seq<TransitionTrigger>,
    pub ids: Seq<int>,
}

/// One edge of the graph: it belongs to the transition `owner`, and leads
/// from the state `from` to the state `to`. All three are positions, in the
/// transitions and in the states.
pub struct Link {
    pub owner: int,
    pub from: int,
    pub to: int,
}

/// The graph of a machine: its states, its transitions, and its edges in
/// the order in which they were made.
pub struct GraphView {
    pub states: Seq<StateView>,
    pub edges: Seq<EdgeView>,
    pub links: Seq<Link>,
}

/// A machine: its graph and the state it takes the device to be in.
pub struct MachineView {
    pub graph: GraphView,
    pub current: Option<int>,
}

impl View for State {
    type V = StateView;

    open spec fn view(&self) -> StateView {
        StateView { name: self.name@, properties: self.properties@ }
    }
}

impl View for EdgeData {
    type V = EdgeView;

    open spec fn view(&self) -> EdgeView {
        EdgeView {
            to: self.to@,
            actions: self.actions@,
            triggers: self.triggers@,
            ids: self.ids@.map_values(|e: usize| e as int),
        }
    }
}

impl From<Transition> for EdgeData {
    /// What a machine keeps of `t`: everything but the states it leaves,
    /// which the graph knows.
    fn from(t: Transition) -> (e: EdgeData) {
        EdgeData { to: t.to, actions: t.actions, triggers: t.triggers, ids: t.ids }
    }
}

impl vstd::std_specs::convert::FromSpecImpl<Transition> for EdgeData {
    open spec fn obeys_from_spec() -> bool {
        true
    }

    open spec fn from_spec(t: Transition) -> EdgeData {
        EdgeData { to: t.to, actions: t.actions, triggers: t.triggers, ids: t.ids }
    }
}

impl State {
    /// A state that no machine holds yet.
    pub fn new(name: String, properties: Vec<Property>) -> (s: State)
        ensures
            s.name == name,
            s.properties == properties,
            s.node is None,
    {
        State { name, properties, node: None }
    }
}

impl Transition {
    /// A transition that no machine holds yet.
    pub fn new(
        to: String,
        from: Vec<String>,
        actions: Vec<TransitionAction>,
        triggers: Vec<TransitionTrigger>,
    ) -> (t: Transition)
        ensures
            t.to == to,
            t.from == from,
            t.actions == actions,
            t.triggers == triggers,
            t.ids@.len() == 0,
    {
        Transition { to, from, actions, triggers, ids: Vec::new() }
    }
}

/// The names of `states`, in order.
pub open spec fn names_of(states: Seq<State>) -> Seq<Seq<char>> {
    states.map_values(|s: State| s.name@)
}

/// `i` is the first place at which `name` stands in `names`.
pub open spec fn is_first(names: Seq<Seq<char>>, name: Seq<char>, i: int) -> bool {
    &&& 0 <= i < names.len()
    &&& names[i] == name
    &&& forall|k: int| 0 <= k < i ==> names[k] != name
}

/// The state that `name` stands for: the first one of that name.
pub open spec fn resolve(names: Seq<Seq<char>>, name: Seq<char>) -> Option<int> {
    if exists|i: int| is_first(names, name, i) {
        Some(choose|i: int| is_first(names, name, i))
    } else {
        None
    }
}

/// A name stands for at most one state.
pub proof fn lemma_resolve(names: Seq<Seq<char>>, name: Seq<char>)
    ensures
        resolve(names, name) matches Some(i) ==> is_first(names, name, i),
        resolve(names, name) is None ==> forall|k: int| 0 <= k < names.len() ==> names[k] != name,
        forall|i: int| is_first(names, name, i) ==> resolve(names, name) == Some(i),
{
    if exists|i: int| is_first(names, name, i) {
        let w = choose|i: int| is_first(names, name, i);
        assert forall|i: int| is_first(names, name, i) implies i == w by {
            if i < w {
                assert(names[i] == name);
            } else if w < i {
                assert(names[w] == name);
            }
        }
    } else {
        assert forall|k: int| 0 <= k < names.len() implies names[k] != name by {
            if names[k] == name {
                lemma_first_exists(names, name, k);
            }
        }
    }
}

proof fn lemma_first_exists(names: Seq<Seq<char>>, name: Seq<char>, k: int)
    requires
        0 <= k < names.len(),
        names[k] == name,
    ensures
        exists|i: int| is_first(names, name, i),
    decreases k,
{
    if exists|j: int| 0 <= j < k && names[j] == name {
        let j = choose|j: int| 0 <= j < k && names[j] == name;
        lemma_first_exists(names, name, j);
    } else {
        assert(is_first(names, name, k));
    }
}

/// The state that the transition leads to.
pub open spec fn target(names: Seq<Seq<char>>, t: Transition) -> Option<int> {
    resolve(names, t.to@)
}

/// Every name in the transition stands for a state.
pub open spec fn resolvable(names: Seq<Seq<char>>, t: Transition) -> bool {
    &&& target(names, t) is Some
    &&& forall|k: int| 0 <= k < t.from@.len() ==> resolve(names, #[trigger] t.from@[k]@) is Some
}

/// `k` is the first place in `from` whose name stands for no state.
pub open spec fn is_first_stray(names: Seq<Seq<char>>, t: Transition, k: int) -> bool {
    &&& 0 <= k < t.from@.len()
    &&& resolve(names, t.from@[k]@) is None
    &&& forall|j: int| 0 <= j < k ==> resolve(names, #[trigger] t.from@[j]@) is Some
}

/// The name that is reported of a transition that is not resolvable: the
/// first of `from` that stands for no state, and `to` where all of them do.
pub open spec fn stray_name(names: Seq<Seq<char>>, t: Transition) -> Seq<char> {
    if exists|k: int| is_first_stray(names, t, k) {
        t.from@[choose|k: int| is_first_stray(names, t, k)]@
    } else {
        t.to@
    }
}

/// All of `n` states but `to`, in order.
pub open spec fn others(n: nat, to: int) -> Seq<int> {
    Seq::new(
        if n > 0 {
            (n - 1) as nat
        } else {
            0
        },
        |k: int|
            if k < to {
                k
            } else {
                k + 1
            },
    )
}

/// The states that a resolvable transition leaves, in the order in which
/// its edges are made: those that `from` names, or every state but the
/// target where `from` names none.
pub open spec fn sources(names: Seq<Seq<char>>, t: Transition) -> Seq<int> {
    if t.from@.len() == 0 {
        others(names.len(), target(names, t)->0)
    } else {
        Seq::new(t.from@.len(), |k: int| resolve(names, t.from@[k]@)->0)
    }
}

fn position(states: &Vec<State>, name: &String) -> (r: Option<usize>)
    ensures
        match r {
            Some(i) => resolve(names_of(states@), name@) == Some(i as int),
            None => resolve(names_of(states@), name@) is None,
        },
{
    let ghost names = names_of(states@);
    let mut i: usize = 0;
    while i < states.len()
        invariant
            i <= states.len(),
            names == names_of(states@),
            forall|k: int| 0 <= k < i ==> names[k] != name@,
        decreases states.len() - i,
    {
        if states[i].name == *name {
            proof {
                assert(is_first(names, name@, i as int));
                lemma_resolve(names, name@);
            }
            return Some(i);
        }
        i += 1;
    }
    proof {
        lemma_resolve(names, name@);
        if resolve(names, name@) is Some {
            let w = resolve(names, name@)->0;
            assert(names[w] == name@);
        }
    }
    None
}

/// Resolves the names of a transition: the state it leads to, and the states
/// it leaves.
pub fn get_states_for_transition(states: &Vec<State>, ts: &Transition) -> (r: Result<
    (usize, Vec<usize>),
    ConfigError,
>)
    ensures
        match r {
            Ok((to, from)) => {
                &&& resolvable(names_of(states@), *ts)
                &&& target(names_of(states@), *ts) == Some(to as int)
                &&& from@.map_values(|i: usize| i as int) == sources(names_of(states@), *ts)
            },
            Err(ConfigError::UnknownState(name)) => {
                &&& !resolvable(names_of(states@), *ts)
                &&& name@ == stray_name(names_of(states@), *ts)
            },
            Err(_) => false,
        },
{
    let ghost names = names_of(states@);
    let mut from: Vec<usize> = Vec::new();
    let mut k: usize = 0;
    while k < ts.from.len()
        invariant
            k <= ts.from.len(),
            names == names_of(states@),
            from@.len() == k,
            forall|j: int| 0 <= j < k ==> resolve(names, #[trigger] ts.from@[j]@) == Some(from@[j] as int),
        decreases ts.from.len() - k,
    {
        match position(states, &ts.from[k]) {
            Some(i) => from.push(i),
            None => {
                proof {
                    assert(is_first_stray(names, *ts, k as int));
                    assert forall|j: int| is_first_stray(names, *ts, j) implies j == k by {
                        if j < k {
                            assert(resolve(names, ts.from@[j]@) is Some);
                        } else if k < j {
                            assert(resolve(names, ts.from@[k as int]@) is Some);
                        }
                    }
                }
                return Err(ConfigError::UnknownState(ts.from[k].clone()));
            },
        }
        k += 1;
    }
    proof {
        assert forall|j: int| !is_first_stray(names, *ts, j) by {
            if 0 <= j < ts.from@.len() {
                assert(resolve(names, ts.from@[j]@) is Some);
            }
        }
    }
    let to = match position(states, &ts.to) {
        Some(i) => i,
        None => {
            return Err(ConfigError::UnknownState(ts.to.clone()));
        },
    };
    proof {
        lemma_resolve(names, ts.to@);
    }
    if from.len() == 0 {
        let mut i: usize = 0;
        while i < states.len()
            invariant
                i <= states.len(),
                to < states.len(),
                from@.len() == (if i <= to {
                    i as int
                } else {
                    i - 1
                }),
                forall|j: int| 0 <= j < from@.len() ==> from@[j] as int == (if j < to {
                    j
                } else {
                    j + 1
                }),
            decreases states.len() - i,
        {
            if i != to {
                from.push(i);
            }
            i += 1;
        }
        assert(from@.map_values(|i: usize| i as int) =~= others(names.len(), to as int));
    } else {
        assert(from@.map_values(|i: usize| i as int) =~= sources(names, *ts));
    }
    Ok((to, from))
}

impl GraphView {
    /// The names of the states, in order.
    pub open spec fn names(self) -> Seq<Seq<char>> {
        self.states.map_values(|s: StateView| s.name)
    }

    /// The state that the transition `t` leads to.
    pub open spec fn target(self, t: int) -> Option<int> {
        resolve(self.names(), self.edges[t].to)
    }

    /// Every edge belongs to a transition and joins two states, and every
    /// transition leads to a state.
    pub open spec fn wf(self) -> bool {
        &&& forall|e: int|
            0 <= e < self.links.len() ==> 0 <= (#[trigger] self.links[e]).owner
                < self.edges.len() && 0 <= self.links[e].from < self.states.len() && 0
                <= self.links[e].to < self.states.len()
        &&& forall|t: int| 0 <= t < self.edges.len() ==> (#[trigger] self.target(t)) is Some
    }

    /// A transition names the state `s`: it leads to `s`, or an edge made
    /// of it leaves `s`.
    pub open spec fn named(self, s: int) -> bool {
        ||| exists|t: int| 0 <= t < self.edges.len() && #[trigger] self.target(t) == Some(s)
        ||| exists|e: int| 0 <= e < self.links.len() && (#[trigger] self.links[e]).from == s
    }

    /// The number of states among the first `n` that a transition names.
    pub open spec fn named_count(self, n: int) -> nat
        decreases n,
    {
        if n <= 0 {
            0
        } else if self.named(n - 1) {
            self.named_count(n - 1) + 1
        } else {
            self.named_count(n - 1)
        }
    }

    /// The actions of the transition `t`, each as the pair of `t` and its
    /// place among them.
    pub open spec fn batch(self, t: int) -> Seq<(int, int)> {
        Seq::new(self.edges[t].actions.len(), |j: int| (t, j))
    }

    /// The actions of the first `n` transitions: transition by transition,
    /// and within one in the order in which it declares them.
    pub open spec fn every(self, n: int) -> Seq<(int, int)>
        decreases n,
    {
        if n <= 0 {
            Seq::empty()
        } else {
            self.every(n - 1) + self.batch(n - 1)
        }
    }

    /// Those of the first `n` edges that leave the state `s`, in the order
    /// in which they were made.
    pub open spec fn leaving(self, s: int, n: int) -> Seq<int>
        decreases n,
    {
        if n <= 0 {
            Seq::empty()
        } else if self.links[n - 1].from == s {
            self.leaving(s, n - 1).push(n - 1)
        } else {
            self.leaving(s, n - 1)
        }
    }

    /// The actions met along the edges `es`: edge by edge, those of the
    /// transition that the edge belongs to.
    pub open spec fn along(self, es: Seq<int>) -> Seq<(int, int)>
        decreases es.len(),
    {
        if es.len() == 0 {
            Seq::empty()
        } else {
            self.along(es.drop_last()) + self.batch(self.links[es.last()].owner)
        }
    }

    /// The actions that count while the device is taken to be in `current`,
    /// in the order in which they are tried. While no state is known these
    /// are all of them. In a known state they are those along the edges
    /// that leave it, the edges taken in the order in which they were made.
    pub open spec fn listed(self, current: Option<int>) -> Seq<(int, int)> {
        match current {
            None => self.every(self.edges.len() as int),
            Some(s) => self.along(self.leaving(s, self.links.len() as int)),
        }
    }

    /// The value of the action `a`.
    pub open spec fn value(self, a: (int, int)) -> Seq<char> {
        self.edges[a.0].actions[a.1].value@
    }

    /// Those of the first `n` of `triggers` that have a sequence to show.
    pub open spec fn with_sequence(triggers: Seq<TransitionTrigger>, n: int) -> Seq<
        TransitionTrigger,
    >
        decreases n,
    {
        if n <= 0 {
            Seq::empty()
        } else if triggers[n - 1].sequence@.len() != 0 {
            Self::with_sequence(triggers, n - 1).push(triggers[n - 1])
        } else {
            Self::with_sequence(triggers, n - 1)
        }
    }

    /// The triggers of the first `n` transitions that have a sequence to
    /// show, in the order of the description.
    pub open spec fn shown(self, n: int) -> Seq<TransitionTrigger>
        decreases n,
    {
        if n <= 0 {
            Seq::empty()
        } else {
            self.shown(n - 1) + Self::with_sequence(
                self.edges[n - 1].triggers,
                self.edges[n - 1].triggers.len() as int,
            )
        }
    }
}

impl MachineView {
    /// The actions that count in the current state, in the order in which
    /// they are tried.
    pub open spec fn listed(self) -> Seq<(int, int)> {
        self.graph.listed(self.current)
    }

    /// No action that counts matches `line`.
    pub open spec fn misses(self, line: Seq<char>) -> bool {
        forall|k: int|
            0 <= k < self.listed().len() ==> !value_matches(
                self.graph.value(#[trigger] self.listed()[k]),
                line,
            )
    }

    /// The `k`-th action that counts is the first that matches `line`.
    pub open spec fn hits(self, line: Seq<char>, k: int) -> bool {
        &&& 0 <= k < self.listed().len()
        &&& value_matches(self.graph.value(self.listed()[k]), line)
        &&& forall|j: int|
            0 <= j < k ==> !value_matches(self.graph.value(#[trigger] self.listed()[j]), line)
    }

    /// The machine after it has followed the transition `t`.
    pub open spec fn entered(self, t: int) -> MachineView {
        MachineView { graph: self.graph, current: self.graph.target(t) }
    }

    /// What is handed out when the transition `t` is followed: the
    /// properties of the state that it leads to.
    pub open spec fn granted(self, t: int) -> Seq<Property> {
        self.graph.states[self.graph.target(t)->0].properties
    }

    /// The machine answers `line` by handing out `out` and becoming
    /// `after`. Where an action that counts matches the line, the first
    /// such action decides: the machine follows its transition and hands
    /// out the properties of the state entered. Where none does, nothing is
    /// handed out and nothing changes.
    pub open spec fn steps(self, line: Seq<char>, after: MachineView, out: Option<Vec<Property>>) -> bool {
        match out {
            Some(props) => exists|k: int|
                {
                    &&& #[trigger] self.hits(line, k)
                    &&& props@ == self.granted(self.listed()[k].0)
                    &&& after == self.entered(self.listed()[k].0)
                },
            None => self.misses(line) && after == self,
        }
    }
}

/// The edges that are made of one resolvable transition, the `owner`-th.
pub open spec fn links_of(names: Seq<Seq<char>>, t: Transition, owner: int) -> Seq<Link> {
    Seq::new(
        sources(names, t).len(),
        |k: int| Link { owner, from: sources(names, t)[k], to: target(names, t)->0 },
    )
}

/// The edges that are made of the first `n` transitions.
pub open spec fn links_upto(names: Seq<Seq<char>>, ts: Seq<Transition>, n: int) -> Seq<Link>
    decreases n,
{
    if n <= 0 {
        Seq::empty()
    } else {
        links_upto(names, ts, n - 1) + links_of(names, ts[n - 1], n - 1)
    }
}

/// The number of edges that one transition asks for among `n` states: one
/// for each state it names, or one for every state but its target.
pub open spec fn fan(n: nat, t: Transition) -> nat {
    if t.from@.len() > 0 {
        t.from@.len()
    } else if n > 0 {
        (n - 1) as nat
    } else {
        0
    }
}

/// The number of edges that the first `m` transitions ask for.
pub open spec fn edge_total(n: nat, ts: Seq<Transition>, m: int) -> nat
    decreases m,
{
    if m <= 0 {
        0
    } else {
        edge_total(n, ts, m - 1) + fan(n, ts[m - 1])
    }
}

/// The graph can hold what the description asks for: its ids are machine
/// words, and an edge takes two of them.
pub open spec fn within_capacity(n: nat, ts: Seq<Transition>) -> bool {
    ts.len() + 2 * edge_total(n, ts, ts.len() as int) + 2 < usize::MAX
}

/// Whether the graph can hold what the description asks for.
pub fn fits(states: &Vec<State>, transitions: &Vec<Transition>) -> (b: bool)
    ensures
        b == within_capacity(states@.len(), transitions@),
{
    let n: usize = states.len();
    let m: usize = transitions.len();
    let ghost ts = transitions@;
    if m > usize::MAX - 3 {
        return false;
    }
    let room: usize = usize::MAX - 2 - m;
    let cap: usize = (room - 1) / 2;
    let mut total: usize = 0;
    let mut i: usize = 0;
    while i < m
        invariant
            i <= m,
            m == ts.len(),
            n == states@.len(),
            ts == transitions@,
            total == edge_total(n as nat, ts, i as int),
            total <= cap,
            room == usize::MAX - 2 - m,
            cap == (room - 1) / 2,
        decreases m - i,
    {
        let named: usize = transitions[i].from.len();
        let asked: usize = if named > 0 {
            named
        } else if n > 0 {
            n - 1
        } else {
            0
        };
        assert(asked == fan(n as nat, ts[i as int]));
        if asked > cap - total {
            proof {
                lemma_edge_total_grows(n as nat, ts, i + 1, m as int);
            }
            return false;
        }
        total = total + asked;
        i += 1;
    }
    true
}

/// Every transition is resolvable.
pub open spec fn all_resolvable(names: Seq<Seq<char>>, ts: Seq<Transition>) -> bool {
    forall|i: int| 0 <= i < ts.len() ==> resolvable(names, #[trigger] ts[i])
}

/// `i` is the first transition that is not resolvable.
pub open spec fn is_first_unresolvable(names: Seq<Seq<char>>, ts: Seq<Transition>, i: int) -> bool {
    &&& 0 <= i < ts.len()
    &&& !resolvable(names, ts[i])
    &&& forall|j: int| 0 <= j < i ==> resolvable(names, #[trigger] ts[j])
}

/// The value of the `j`-th action of the `i`-th transition can be tested
/// against lines.
pub open spec fn usable_at(ts: Seq<EdgeView>, i: int, j: int) -> bool {
    usable(ts[i].actions[j].value@)
}

/// The value of every action can be tested against lines.
pub open spec fn all_usable(ts: Seq<EdgeView>) -> bool {
    forall|i: int, j: int|
        0 <= i < ts.len() && 0 <= j < ts[i].actions.len() ==> #[trigger] usable_at(ts, i, j)
}

/// The `j`-th action of the `i`-th transition is the first, in the order of
/// the description, whose value cannot be tested against lines.
pub open spec fn is_first_unusable(ts: Seq<EdgeView>, i: int, j: int) -> bool {
    &&& 0 <= i < ts.len()
    &&& 0 <= j < ts[i].actions.len()
    &&& !usable_at(ts, i, j)
    &&& forall|k: int| 0 <= k < j ==> #[trigger] usable_at(ts, i, k)
    &&& forall|h: int, k: int|
        0 <= h < i && 0 <= k < ts[h].actions.len() ==> #[trigger] usable_at(ts, h, k)
}

/// The positions of the edges that are made of the `t`-th transition: they
/// follow those of the transitions before it, one for each state that it
/// leaves.
pub open spec fn ids_of(names: Seq<Seq<char>>, ts: Seq<Transition>, t: int) -> Seq<int> {
    Seq::new(sources(names, ts[t]).len(), |k: int| links_upto(names, ts, t).len() + k)
}

/// What a machine keeps of the `t`-th transition.
pub open spec fn kept(names: Seq<Seq<char>>, ts: Seq<Transition>, t: int) -> EdgeView {
    EdgeView {
        to: ts[t].to@,
        actions: ts[t].actions@,
        triggers: ts[t].triggers@,
        ids: ids_of(names, ts, t),
    }
}

/// The machine that is built from a description in which every name stands
/// for a state: it holds the states and transitions as they are given, one
/// edge for each state that each transition leaves, recorded on the
/// transition, and knows no current state.
pub open spec fn initial(states: Seq<State>, ts: Seq<Transition>) -> MachineView {
    MachineView {
        graph: GraphView {
            states: states.map_values(|s: State| s@),
            edges: Seq::new(ts.len(), |t: int| kept(names_of(states), ts, t)),
            links: links_upto(names_of(states), ts, ts.len() as int),
        },
        current: None,
    }
}

/// `e` is what is answered to a description that no graph is built of: two
/// states of one name come first, then two transitions of one route, then
/// the first transition with a name that stands for no state.
pub open spec fn graph_refusal(states: Seq<State>, ts: Seq<Transition>, e: ConfigError) -> bool {
    match e {
        ConfigError::DuplicateState => twin_states(states),
        ConfigError::DuplicateTransition => !twin_states(states) && twin_transitions(ts),
        ConfigError::UnknownState(name) => {
            &&& !twin_states(states)
            &&& !twin_transitions(ts)
            &&& exists|i: int| #[trigger]
                is_first_unresolvable(names_of(states), ts, i) && name@ == stray_name(
                    names_of(states),
                    ts[i],
                )
        },
        _ => false,
    }
}

/// A graph can be built of the description: no two states share a name, no
/// two transitions share their route, and every name stands for a state.
pub open spec fn buildable(states: Seq<State>, ts: Seq<Transition>) -> bool {
    &&& !twin_states(states)
    &&& !twin_transitions(ts)
    &&& all_resolvable(names_of(states), ts)
}

/// The graph of a machine: the states, the transitions, and a directed graph
/// with one node for each state that a transition names and one edge for
/// each state that a transition leaves. An edge runs from the node of the
/// target to the node of the state that is left.
pub struct StateGraph {
    graph: LinkedListGraph<usize, (), ()>,
    states: Vec<State>,
    edges: Vec<EdgeData>,
    links: Ghost<Seq<Link>>,
}

/// The nodes of the states are nodes of the graph, and no two states share
/// one.
spec fn nodes_ok(states: Seq<State>, n: nat) -> bool {
    &&& forall|s: int|
        0 <= s < states.len() ==> ((#[trigger] states[s]).node matches Some(x) ==> x < n)
    &&& forall|s: int, t: int|
        0 <= s < states.len() && 0 <= t < states.len() && s != t && (#[trigger] states[s]).node
            is Some ==> states[s].node != (#[trigger] states[t]).node
}

/// The edge `e` of the graph runs between the nodes of the two states that
/// the link names.
spec fn link_ok(states: Seq<State>, arcs: Seq<(usize, usize)>, l: Link, e: int) -> bool {
    &&& 0 <= l.from < states.len()
    &&& 0 <= l.to < states.len()
    &&& states[l.from].node == Some(arcs[e].1)
    &&& states[l.to].node == Some(arcs[e].0)
}

spec fn links_ok(states: Seq<State>, arcs: Seq<(usize, usize)>, links: Seq<Link>) -> bool {
    &&& arcs.len() == links.len()
    &&& forall|e: int| 0 <= e < links.len() ==> link_ok(states, arcs, #[trigger] links[e], e)
}

/// The edges that each transition has recorded are those that it owns.
spec fn ids_ok(edges: Seq<EdgeData>, links: Seq<Link>) -> bool {
    &&& forall|e: int|
        0 <= e < links.len() ==> 0 <= (#[trigger] links[e]).owner < edges.len()
            && edges[links[e].owner].ids@.contains(e as usize)
    &&& forall|t: int, k: int|
        0 <= t < edges.len() && 0 <= k < edges[t].ids@.len() ==> (#[trigger] edges[t].ids@[k])
            < links.len() && links[edges[t].ids@[k] as int].owner == t
}

/// The target of the transition is a state with a node.
spec fn target_ok(states: Seq<State>, e: EdgeData) -> bool {
    resolve(names_of(states), e.to@) matches Some(i) && states[i].node is Some
}

spec fn targets_ok(states: Seq<State>, edges: Seq<EdgeData>) -> bool {
    forall|t: int| 0 <= t < edges.len() ==> target_ok(states, #[trigger] edges[t])
}

/// One of the first `i` transitions leads to the state `s`, or one of
/// `links` leaves it.
spec fn named_so_far(
    names: Seq<Seq<char>>,
    ts: Seq<Transition>,
    i: int,
    links: Seq<Link>,
    s: int,
) -> bool {
    ||| exists|t: int| 0 <= t < i && target(names, #[trigger] ts[t]) == Some(s)
    ||| exists|e: int| 0 <= e < links.len() && (#[trigger] links[e]).from == s
}

/// The states with a node are those named so far, and `extra`.
spec fn marking(
    names: Seq<Seq<char>>,
    ts: Seq<Transition>,
    i: int,
    links: Seq<Link>,
    states: Seq<State>,
    extra: Option<int>,
) -> bool {
    forall|s: int|
        0 <= s < states.len() ==> ((#[trigger] states[s]).node is Some <==> (named_so_far(
            names,
            ts,
            i,
            links,
            s,
        ) || extra == Some(s)))
}

/// The number of states among the first `n` that have a node.
spec fn counted(states: Seq<State>, n: int) -> nat
    decreases n,
{
    if n <= 0 {
        0
    } else if states[n - 1].node is Some {
        counted(states, n - 1) + 1
    } else {
        counted(states, n - 1)
    }
}

/// A state that gets a node counts from then on.
proof fn lemma_counted_grows(before: Seq<State>, after: Seq<State>, s: int, n: int)
    requires
        before.len() == after.len(),
        0 <= s < before.len(),
        0 <= n <= before.len(),
        before[s].node is None,
        after[s].node is Some,
        forall|k: int| 0 <= k < before.len() && k != s ==> #[trigger] after[k] == before[k],
    ensures
        counted(after, n) == counted(before, n) + if s < n {
            1nat
        } else {
            0nat
        },
    decreases n,
{
    if n > 0 {
        lemma_counted_grows(before, after, s, n - 1);
        if n - 1 != s {
            assert(after[n - 1] == before[n - 1]);
        }
    }
}

/// States that agree on the first `n` count the same among them.
proof fn lemma_counted_prefix(before: Seq<State>, after: Seq<State>, n: int)
    requires
        0 <= n <= before.len() == after.len(),
        forall|k: int| 0 <= k < n ==> #[trigger] after[k] == before[k],
    ensures
        counted(after, n) == counted(before, n),
    decreases n,
{
    if n > 0 {
        lemma_counted_prefix(before, after, n - 1);
        assert(after[n - 1] == before[n - 1]);
    }
}

/// Where the states with a node are the states that are named, there are
/// as many of the one as of the other.
proof fn lemma_counted_named(states: Seq<State>, g: GraphView, n: int)
    requires
        0 <= n <= states.len(),
        forall|s: int| 0 <= s < states.len() ==> ((#[trigger] states[s]).node is Some <==> g.named(s)),
    ensures
        counted(states, n) == g.named_count(n),
    decreases n,
{
    if n > 0 {
        lemma_counted_named(states, g, n - 1);
        assert(states[n - 1].node is Some <==> g.named(n - 1));
    }
}

/// What holds of the states and the builder while a graph is built from the
/// states `orig`.
spec fn building(
    orig: Seq<State>,
    states: Seq<State>,
    b: LinkedListGraphBuilder<usize, (), ()>,
    links: Seq<Link>,
) -> bool {
    &&& states.len() == orig.len()
    &&& forall|s: int|
        0 <= s < states.len() ==> (#[trigger] states[s]).name == orig[s].name
            && states[s].properties == orig[s].properties
    &&& nodes_ok(states, builder_nodes(b))
    &&& links_ok(states, builder_arcs(b), links)
    &&& builder_nodes(b) == counted(states, states.len() as int)
}

proof fn lemma_same_names(orig: Seq<State>, states: Seq<State>)
    requires
        states.len() == orig.len(),
        forall|s: int| 0 <= s < states.len() ==> (#[trigger] states[s]).name == orig[s].name,
    ensures
        names_of(states) == names_of(orig),
{
    assert(names_of(states) =~= names_of(orig));
}

/// More transitions do not ask for fewer edges.
pub proof fn lemma_edge_total_grows(n: nat, ts: Seq<Transition>, a: int, b: int)
    requires
        a <= b,
    ensures
        edge_total(n, ts, a) <= edge_total(n, ts, b),
    decreases b - a,
{
    if a < b {
        lemma_edge_total_grows(n, ts, a, b - 1);
    }
}

/// A resolvable transition gets as many edges as it asks for.
pub proof fn lemma_sources_len(names: Seq<Seq<char>>, t: Transition)
    requires
        resolvable(names, t),
    ensures
        sources(names, t).len() == fan(names.len(), t),
{
    lemma_resolve(names, t.to@);
}

/// The states that a resolvable transition leaves are states.
pub proof fn lemma_sources_in_range(names: Seq<Seq<char>>, t: Transition)
    requires
        resolvable(names, t),
    ensures
        0 <= target(names, t)->0 < names.len(),
        forall|k: int|
            0 <= k < sources(names, t).len() ==> 0 <= #[trigger] sources(names, t)[k]
                < names.len(),
{
    lemma_resolve(names, t.to@);
    assert forall|k: int| 0 <= k < sources(names, t).len() implies 0 <= #[trigger] sources(
        names,
        t,
    )[k] < names.len() by {
        if t.from@.len() > 0 {
            assert(resolve(names, t.from@[k]@) is Some);
            lemma_resolve(names, t.from@[k]@);
        }
    }
}

/// The node of the state `s`, which gets a new one if it has none.
fn node_for(states: &mut Vec<State>, b: &mut LinkedListGraphBuilder<usize, (), ()>, s: usize, Ghost(
    orig,
): Ghost<Seq<State>>, Ghost(links): Ghost<Seq<Link>>) -> (n: usize)
    requires
        s < old(states)@.len(),
        building(orig, old(states)@, *old(b), links),
        builder_nodes(*old(b)) + 1 < usize::MAX,
    ensures
        building(orig, final(states)@, *final(b), links),
        final(states)@[s as int].node == Some(n),
        forall|k: int|
            0 <= k < old(states)@.len() && (#[trigger] old(states)@[k]).node is Some
                ==> final(states)@[k].node == old(states)@[k].node,
        forall|k: int|
            0 <= k < old(states)@.len() && k != s ==> #[trigger] final(states)@[k]
                == old(states)@[k],
        old(states)@[s as int].node is Some ==> final(states)@ == old(states)@,
        builder_arcs(*final(b)) == builder_arcs(*old(b)),
        builder_nodes(*old(b)) <= builder_nodes(*final(b)) <= builder_nodes(*old(b)) + 1,
{
    match states[s].node {
        Some(n) => n,
        None => {
            let n = add_node(b);
            states[s].node = Some(n);
            proof {
                lemma_counted_grows(old(states)@, states@, s as int, states@.len() as int);
                let arcs = builder_arcs(*b);
                assert forall|e: int| 0 <= e < links.len() implies link_ok(
                    states@,
                    arcs,
                    #[trigger] links[e],
                    e,
                ) by {
                    assert(link_ok(old(states)@, arcs, links[e], e));
                }
            }
            n
        },
    }
}

proof fn lemma_ids_extend(edges: Seq<EdgeData>, base: Seq<Link>, new: EdgeData, added: Seq<Link>)
    requires
        ids_ok(edges, base),
        new.ids@.len() == added.len(),
        forall|j: int| 0 <= j < added.len() ==> new.ids@[j] == base.len() + j,
        forall|j: int| 0 <= j < added.len() ==> (#[trigger] added[j]).owner == edges.len(),
    ensures
        ids_ok(edges.push(new), base + added),
{
    let all = base + added;
    let grown = edges.push(new);
    assert forall|e: int| 0 <= e < all.len() implies 0 <= (#[trigger] all[e]).owner < grown.len()
        && grown[all[e].owner].ids@.contains(e as usize) by {
        if e < base.len() {
            assert(all[e] == base[e]);
            assert(grown[base[e].owner] == edges[base[e].owner]);
        } else {
            assert(all[e] == added[e - base.len()]);
            assert(new.ids@[e - base.len()] == e as usize);
        }
    }
    assert forall|t: int, k: int| 0 <= t < grown.len() && 0 <= k < grown[t].ids@.len() implies (
    #[trigger] grown[t].ids@[k]) < all.len() && all[grown[t].ids@[k] as int].owner == t by {
        if t < edges.len() {
            assert(grown[t] == edges[t]);
            assert(edges[t].ids@[k] < base.len());
            assert(all[edges[t].ids@[k] as int] == base[edges[t].ids@[k] as int]);
        } else {
            assert(all[base.len() + k] == added[k]);
        }
    }
}

impl View for StateGraph {
    type V = GraphView;

    closed spec fn view(&self) -> GraphView {
        GraphView {
            states: self.states@.map_values(|s: State| s@),
            edges: self.edges@.map_values(|e: EdgeData| e@),
            links: self.links@,
        }
    }
}

impl StateGraph {
    #[verifier::type_invariant]
    spec fn inv(&self) -> bool {
        &&& self.links@.len() < usize::MAX
        &&& nodes_ok(self.states@, graph_nodes(self.graph))
        &&& links_ok(self.states@, graph_arcs(self.graph), self.links@)
        &&& ids_ok(self.edges@, self.links@)
        &&& targets_ok(self.states@, self.edges@)
    }

    /// The node of the state at `s`, where it has one.
    pub closed spec fn node_of(&self, s: int) -> Option<usize> {
        self.states@[s].node
    }

    /// The number of nodes of the graph.
    pub closed spec fn node_count(&self) -> nat {
        graph_nodes(self.graph)
    }

    /// The nodes that the edge at `e` joins: first that of the target of
    /// its transition, then that of the state it leaves.
    pub closed spec fn ends(&self, e: int) -> (usize, usize) {
        graph_arcs(self.graph)[e]
    }

    /// How the nodes stand to the states. A state has a node if and only
    /// if a transition names it. No two states share a node, every node is
    /// one of the graph, and the graph has no others. Each edge joins the
    /// node of the target of its transition to the node of the state it
    /// leaves.
    pub open spec fn noded(&self) -> bool {
        &&& forall|s: int|
            0 <= s < self@.states.len() ==> ((#[trigger] self.node_of(s)) is Some
                <==> self@.named(s))
        &&& forall|s: int|
            0 <= s < self@.states.len() ==> ((#[trigger] self.node_of(s)) matches Some(n)
                ==> n < self.node_count())
        &&& forall|s: int, t: int|
            0 <= s < self@.states.len() && 0 <= t < self@.states.len() && s != t && (
            #[trigger] self.node_of(s)) is Some ==> self.node_of(s) != #[trigger] self.node_of(t)
        &&& self.node_count() == self@.named_count(self@.states.len() as int)
        &&& forall|e: int|
            0 <= e < self@.links.len() ==> #[trigger] self.ends(e) == (
                self.node_of(self@.links[e].to)->0,
                self.node_of(self@.links[e].from)->0,
            )
    }

    /// The state that a transition leads to has a node, and so has each
    /// state that an edge leaves.
    pub proof fn lemma_named_have_nodes(self, t: int, e: int)
        requires
            self.noded(),
            self@.wf(),
        ensures
            0 <= t < self@.edges.len() ==> self.node_of(self@.target(t)->0) is Some,
            0 <= e < self@.links.len() ==> self.node_of(self@.links[e].from) is Some,
    {
        if 0 <= t < self@.edges.len() {
            let s = self@.target(t)->0;
            assert(self@.target(t) is Some);
            lemma_resolve(self@.names(), self@.edges[t].to);
            assert(self@.named(s));
        }
        if 0 <= e < self@.links.len() {
            assert(self@.named(self@.links[e].from));
        }
    }

    /// Builds the graph of a description. Two states of one name or two
    /// transitions of one route end the work at once. Then each transition
    /// is resolved in turn; the states it names get a node where they have
    /// none, and for each state it leaves an edge is added, from the node
    /// of its target to the node of that state, and recorded on the
    /// transition. The first transition with a name that stands for no
    /// state ends the work, and nothing is built. Nodes and edges that the
    /// states and transitions bring along are dropped.
    ///
    /// The description has to fit the graph, which `fits` tells.
    pub fn new(states: Vec<State>, transitions: Vec<Transition>) -> (r: Result<
        StateGraph,
        ConfigError,
    >)
        requires
            within_capacity(states@.len(), transitions@),
        ensures
            r is Ok <==> buildable(states@, transitions@),
            match r {
                Ok(g) => g@ == initial(states@, transitions@).graph && g.noded(),
                Err(e) => graph_refusal(states@, transitions@, e),
            },
    {
        if has_twin_states(&states) {
            return Err(ConfigError::DuplicateState);
        }
        if has_twin_transitions(&transitions) {
            return Err(ConfigError::DuplicateTransition);
        }
        let ghost given = states@;
        let ghost names = names_of(states@);
        let ghost ts = transitions@;
        let n: usize = states.len();
        let mut held = states;
        let mut s: usize = 0;
        while s < n
            invariant
                s <= n,
                n == given.len(),
                held@.len() == n,
                forall|k: int|
                    0 <= k < n ==> (#[trigger] held@[k]).name == given[k].name
                        && held@[k].properties == given[k].properties,
                forall|k: int| 0 <= k < s ==> (#[trigger] held@[k]).node is None,
                counted(held@, s as int) == 0,
            decreases n - s,
        {
            let ghost before = held@;
            held[s].node = None;
            proof {
                lemma_counted_prefix(before, held@, s as int);
            }
            s += 1;
        }
        let mut b = new_builder();
        let mut edges: Vec<EdgeData> = Vec::new();
        let ghost mut links: Seq<Link> = Seq::empty();
        for t in it: transitions.into_iter()
            invariant
                it.seq() == ts,
                ts == transitions@,
                given == states@,
                !twin_states(given),
                !twin_transitions(ts),
                names == names_of(given),
                n == given.len(),
                within_capacity(n as nat, ts),
                building(given, held@, b, links),
                marking(names, ts, it.index() as int, links, held@, None),
                links == links_upto(names, ts, it.index() as int),
                links.len() == edge_total(n as nat, ts, it.index() as int),
                forall|j: int| 0 <= j < it.index() ==> resolvable(names, #[trigger] ts[j]),
                edges@.len() == it.index(),
                forall|j: int| 0 <= j < it.index() ==> (#[trigger] edges@[j])@ == kept(names, ts, j),
                ids_ok(edges@, links),
                targets_ok(held@, edges@),
                builder_nodes(b) <= it.index() + links.len(),
        {
            let ghost i = it.index() as int;
            proof {
                lemma_same_names(given, held@);
                lemma_edge_total_grows(n as nat, ts, i + 1, ts.len() as int);
            }
            let (to, from) = match get_states_for_transition(&held, &t) {
                Ok(found) => found,
                Err(e) => {
                    proof {
                        assert(t == ts[i]);
                        assert(!resolvable(names, ts[i]));
                        assert(is_first_unresolvable(names, ts, i));
                    }
                    return Err(e);
                },
            };
            proof {
                lemma_sources_len(names, t);
                lemma_sources_in_range(names, t);
            }
            let ghost base = links;
            let ghost fresh = links_of(names, t, i);
            let ghost start = held@;
            let to_node = node_for(&mut held, &mut b, to, Ghost(given), Ghost(links));
            assert(targets_ok(held@, edges@)) by {
                lemma_same_names(given, held@);
                assert forall|j: int| 0 <= j < edges@.len() implies target_ok(
                    held@,
                    #[trigger] edges@[j],
                ) by {}
            }
            assert(marking(names, ts, i, links, held@, Some(to as int))) by {
                assert forall|s: int| 0 <= s < held@.len() implies ((#[trigger] held@[s]).node
                    is Some <==> (named_so_far(names, ts, i, links, s) || Some(to as int)
                    == Some(s))) by {
                    if s != to {
                        assert(held@[s] == start[s]);
                    }
                }
            }
            let mut ids: Vec<usize> = Vec::new();
            let mut k: usize = 0;
            while k < from.len()
                invariant
                    k <= from.len(),
                    from@.len() == fan(n as nat, t),
                    from@.map_values(|x: usize| x as int) == sources(names, t),
                    to < n,
                    resolvable(names, t),
                    n == given.len(),
                    names == names_of(given),
                    fresh == links_of(names, t, i),
                    fresh.len() == from@.len(),
                    target(names, t) == Some(to as int),
                    building(given, held@, b, links),
                    marking(names, ts, i, links, held@, Some(to as int)),
                    held@[to as int].node == Some(to_node),
                    links == base + fresh.take(k as int),
                    ids@.len() == k,
                    forall|j: int| 0 <= j < k ==> ids@[j] == base.len() + j,
                    targets_ok(held@, edges@),
                    builder_nodes(b) <= i + 1 + links.len(),
                    0 <= i == edges@.len(),
                    base.len() + from@.len() + i + 1 + base.len() + from@.len() + 2 < usize::MAX,
                decreases from.len() - k,
            {
                let ghost before = held@;
                proof {
                    lemma_sources_in_range(names, t);
                    assert(from@.map_values(|x: usize| x as int)[k as int] == from@[k as int]);
                    assert(0 <= sources(names, t)[k as int] < n);
                }
                let from_node = node_for(&mut held, &mut b, from[k], Ghost(given), Ghost(links));
                assert(held@[from@[k as int] as int].node == Some(from_node));
                assert(held@[to as int].node == Some(to_node));
                let e = add_edge(&mut b, to_node, from_node);
                ids.push(e);
                proof {
                    let left = from@[k as int] as int;
                    let link = Link { owner: i, from: left, to: to as int };
                    assert(from@.map_values(|x: usize| x as int)[k as int] == from@[k as int]);
                    assert(fresh[k as int] == link);
                    let longer = links.push(link);
                    assert(longer =~= base + fresh.take(k + 1));
                    let arcs = builder_arcs(b);
                    assert forall|x: int| 0 <= x < longer.len() implies link_ok(
                        held@,
                        arcs,
                        #[trigger] longer[x],
                        x,
                    ) by {
                        if x < links.len() {
                            assert(longer[x] == links[x]);
                        }
                    }
                    assert forall|s: int| 0 <= s < held@.len() implies ((#[trigger] held@[s]).node
                        is Some <==> (named_so_far(names, ts, i, longer, s) || Some(to as int)
                        == Some(s))) by {
                        if s == left {
                            assert(longer[links.len() as int].from == s);
                        } else {
                            assert(held@[s] == before[s]);
                            if named_so_far(names, ts, i, links, s) {
                                if exists|e: int| 0 <= e < links.len() && (#[trigger] links[e]).from == s {
                                    let e = choose|e: int|
                                        0 <= e < links.len() && (#[trigger] links[e]).from == s;
                                    assert(longer[e].from == s);
                                }
                            }
                            if named_so_far(names, ts, i, longer, s) {
                                if exists|e: int| 0 <= e < longer.len() && (#[trigger] longer[e]).from == s {
                                    let e = choose|e: int|
                                        0 <= e < longer.len() && (#[trigger] longer[e]).from == s;
                                    assert(e < links.len());
                                    assert(links[e].from == s);
                                }
                            }
                        }
                    }
                    links = longer;
                    lemma_same_names(given, held@);
                    assert forall|j: int| 0 <= j < edges@.len() implies target_ok(
                        held@,
                        #[trigger] edges@[j],
                    ) by {
                        assert(target_ok(before, edges@[j]));
                        lemma_same_names(given, before);
                    }
                }
                k += 1;
            }
            proof {
                assert(fresh.take(k as int) =~= fresh);
                assert(links == links_upto(names, ts, i + 1));
                lemma_same_names(given, held@);
                assert forall|s: int| 0 <= s < held@.len() implies ((#[trigger] held@[s]).node
                    is Some <==> named_so_far(names, ts, i + 1, links, s)) by {
                    assert(target(names, ts[i]) == Some(to as int));
                    if named_so_far(names, ts, i + 1, links, s) && !named_so_far(
                        names,
                        ts,
                        i,
                        links,
                        s,
                    ) {
                        let w = choose|w: int|
                            0 <= w < i + 1 && target(names, #[trigger] ts[w]) == Some(s);
                        assert(w == i);
                    }
                }
            }
            let ghost given_t = t;
            let mut t = t;
            t.ids = ids;
            let edge = EdgeData::from(t);
            proof {
                assert(edge@.ids =~= ids_of(names, ts, i));
                assert(edge@ == kept(names, ts, i));
                lemma_ids_extend(edges@, base, edge, fresh);
                assert(target_ok(held@, edge));
            }
            edges.push(edge);
        }
        let ghost count = builder_nodes(b);
        let ghost arcs = builder_arcs(b);
        let g = StateGraph { graph: into_graph(b), states: held, edges, links: Ghost(links) };
        proof {
            assert(g@.states =~= given.map_values(|s: State| s@));
            assert(g@.edges =~= initial(given, ts).graph.edges);
            assert(all_resolvable(names, ts));
            assert(g@.names() =~= names);
            assert forall|s: int| 0 <= s < g.states@.len() implies ((#[trigger] g.states@[s]).node
                is Some <==> g@.named(s)) by {
                assert forall|t: int| 0 <= t < ts.len() implies g@.target(t) == target(
                    names,
                    #[trigger] ts[t],
                ) by {
                    assert(g@.edges[t].to == ts[t].to@);
                }
                if named_so_far(names, ts, ts.len() as int, links, s) {
                    if exists|t: int| 0 <= t < ts.len() && target(names, #[trigger] ts[t]) == Some(s) {
                        let t = choose|t: int|
                            0 <= t < ts.len() && target(names, #[trigger] ts[t]) == Some(s);
                        assert(g@.target(t) == Some(s));
                    }
                }
                if g@.named(s) {
                    if exists|t: int| 0 <= t < g@.edges.len() && #[trigger] g@.target(t) == Some(s) {
                        let t = choose|t: int|
                            0 <= t < g@.edges.len() && #[trigger] g@.target(t) == Some(s);
                        assert(target(names, ts[t]) == Some(s));
                    }
                }
            }
            lemma_counted_named(g.states@, g@, g.states@.len() as int);
            assert forall|e: int| 0 <= e < g@.links.len() implies #[trigger] g.ends(e) == (
                g.node_of(g@.links[e].to)->0,
                g.node_of(g@.links[e].from)->0,
            ) by {
                assert(link_ok(g.states@, arcs, links[e], e));
            }
            assert(g.noded());
        }
        Ok(g)
    }
}

/// The machine that follows a device: the graph of its states and
/// transitions, and the state it takes the device to be in, which is
/// unknown until a line has revealed a transition.
pub struct StateMachine {
    states: StateGraph,
    current_state: Option<usize>,
}

/// The state whose node is `c`.
spec fn state_of(states: Seq<State>, c: usize) -> int {
    choose|s: int| 0 <= s < states.len() && (#[trigger] states[s]).node == Some(c)
}

impl View for StateMachine {
    type V = MachineView;

    closed spec fn view(&self) -> MachineView {
        MachineView {
            graph: self.states@,
            current: match self.current_state {
                None => None,
                Some(c) => Some(state_of(self.states.states@, c)),
            },
        }
    }
}

/// The edges that enter the node of the state `s` are, read backwards, the
/// edges that leave `s`.
proof fn lemma_entering(
    states: Seq<State>,
    count: nat,
    arcs: Seq<(usize, usize)>,
    g: GraphView,
    s: int,
    c: usize,
    n: int,
)
    requires
        nodes_ok(states, count),
        links_ok(states, arcs, g.links),
        0 <= s < states.len(),
        states[s].node == Some(c),
        0 <= n <= arcs.len(),
    ensures
        arcs_in(arcs.take(n), c).len() == g.leaving(s, n).len(),
        forall|p: int|
            0 <= p < g.leaving(s, n).len() ==> 0 <= #[trigger] g.leaving(s, n)[p] < n,
        forall|p: int|
            0 <= p < g.leaving(s, n).len() ==> #[trigger] arcs_in(arcs.take(n), c)[p] == (
                g.leaving(s, n)[g.leaving(s, n).len() - 1 - p] as usize,
                true,
            ),
    decreases n,
{
    if n > 0 {
        lemma_entering(states, count, arcs, g, s, c, n - 1);
        assert(arcs.take(n).drop_last() =~= arcs.take(n - 1));
        assert(arcs.take(n).last() == arcs[n - 1]);
        assert(link_ok(states, arcs, g.links[n - 1], n - 1));
        let from = g.links[n - 1].from;
        if arcs[n - 1].1 == c {
            if from != s {
                assert(states[from].node is Some);
                assert(states[from].node != states[s].node);
            }
        }
    }
}

/// The graph marks no edge that leaves a node as entering it.
proof fn lemma_out_marks(arcs: Seq<(usize, usize)>, c: usize)
    ensures
        forall|p: int| 0 <= p < arcs_out(arcs, c).len() ==> !(#[trigger] arcs_out(arcs, c)[p]).1,
    decreases arcs.len(),
{
    if arcs.len() > 0 {
        lemma_out_marks(arcs.drop_last(), c);
        let rest = arcs_out(arcs.drop_last(), c);
        assert forall|p: int| 0 <= p < arcs_out(arcs, c).len() implies !(#[trigger] arcs_out(
            arcs,
            c,
        )[p]).1 by {
            if arcs.last().0 == c && p > 0 {
                assert(arcs_out(arcs, c)[p] == rest[p - 1]);
            }
        }
    }
}

/// The pairs of `s` as contracts speak of them.
spec fn pairs(s: Seq<(usize, usize)>) -> Seq<(int, int)> {
    s.map_values(|a: (usize, usize)| (a.0 as int, a.1 as int))
}

fn contains_id(ids: &Vec<usize>, e: usize) -> (b: bool)
    ensures
        b == ids@.contains(e),
{
    let mut k: usize = 0;
    while k < ids.len()
        invariant
            k <= ids.len(),
            forall|j: int| 0 <= j < k ==> ids@[j] != e,
        decreases ids.len() - k,
    {
        if ids[k] == e {
            return true;
        }
        k += 1;
    }
    false
}

fn copy_properties(properties: &Vec<Property>) -> (out: Vec<Property>)
    ensures
        out@ == properties@,
{
    let mut out: Vec<Property> = Vec::new();
    let mut k: usize = 0;
    while k < properties.len()
        invariant
            k <= properties@.len(),
            out@ == properties@.take(k as int),
        decreases properties.len() - k,
    {
        out.push(properties[k]);
        k += 1;
    }
    assert(properties@.take(k as int) =~= properties@);
    out
}

/// Appends the actions of the transition `t`, which has `m` of them.
fn push_batch(out: &mut Vec<(usize, usize)>, t: usize, m: usize)
    ensures
        final(out)@ == old(out)@ + Seq::new(m as nat, |j: int| (t, j as usize)),
{
    let mut j: usize = 0;
    while j < m
        invariant
            j <= m,
            out@ == old(out)@ + Seq::new(j as nat, |j: int| (t, j as usize)),
        decreases m - j,
    {
        out.push((t, j));
        j += 1;
    }
}

impl StateMachine {
    #[verifier::type_invariant]
    spec fn inv(&self) -> bool {
        &&& self.states.inv()
        &&& all_usable(self.states@.edges)
        &&& self.current_state matches Some(c) ==> exists|s: int|
            0 <= s < self.states.states@.len() && (#[trigger] self.states.states@[s]).node
                == Some(c)
    }

    /// The graph of the machine.
    pub closed spec fn graph(&self) -> StateGraph {
        self.states
    }

    /// Builds the machine of a description: its graph, with no current
    /// state. A description of which no graph is built is refused as the
    /// graph refuses it; then the first action whose value holds a regular
    /// expression that does not compile is reported.
    ///
    /// The description has to fit the graph, which `fits` tells.
    pub fn new(states: Vec<State>, transitions: Vec<Transition>) -> (r: Result<
        StateMachine,
        ConfigError,
    >)
        requires
            within_capacity(states@.len(), transitions@),
        ensures
            r is Ok <==> buildable(states@, transitions@) && all_usable(
                initial(states@, transitions@).graph.edges,
            ),
            match r {
                Ok(sm) => {
                    &&& sm@ == initial(states@, transitions@)
                    &&& sm.graph()@ == sm@.graph
                    &&& sm.graph().noded()
                },
                Err(ConfigError::MalformedPattern(value)) => {
                    &&& buildable(states@, transitions@)
                    &&& exists|i: int, j: int|
                        is_first_unusable(initial(states@, transitions@).graph.edges, i, j)
                            && value@ == transitions@[i].actions@[j].value@
                },
                Err(e) => graph_refusal(states@, transitions@, e),
            },
    {
        let graph = match StateGraph::new(states, transitions) {
            Ok(graph) => graph,
            Err(e) => {
                return Err(e);
            },
        };
        proof {
            use_type_invariant(&graph);
        }
        let ghost views = graph@.edges;
        let mut i: usize = 0;
        while i < graph.edges.len()
            invariant
                i <= graph.edges@.len(),
                views == graph@.edges,
                views == initial(states@, transitions@).graph.edges,
                buildable(states@, transitions@),
                forall|h: int, k: int|
                    0 <= h < i && 0 <= k < views[h].actions.len() ==> #[trigger] usable_at(
                        views,
                        h,
                        k,
                    ),
            decreases graph.edges.len() - i,
        {
            let actions = &graph.edges[i].actions;
            assert(actions@ == views[i as int].actions);
            let mut j: usize = 0;
            while j < actions.len()
                invariant
                    i < graph.edges@.len(),
                    j <= actions@.len(),
                    actions@ == views[i as int].actions,
                    views == graph@.edges,
                    views == initial(states@, transitions@).graph.edges,
                    buildable(states@, transitions@),
                    forall|h: int, k: int|
                        0 <= h < i && 0 <= k < views[h].actions.len() ==> #[trigger] usable_at(
                            views,
                            h,
                            k,
                        ),
                    forall|k: int| 0 <= k < j ==> #[trigger] usable_at(views, i as int, k),
                decreases actions.len() - j,
            {
                if !is_usable(actions[j].value.as_str()) {
                    assert(is_first_unusable(views, i as int, j as int));
                    assert(views[i as int].actions == transitions@[i as int].actions@);
                    return Err(ConfigError::MalformedPattern(actions[j].value.clone()));
                }
                j += 1;
            }
            i += 1;
        }
        Ok(StateMachine { states: graph, current_state: None })
    }

    /// The transition to which the edge `e` belongs: the one that has
    /// recorded it.
    fn owner_of(&self, e: usize) -> (t: usize)
        requires
            e < self@.graph.links.len(),
        ensures
            t == self@.graph.links[e as int].owner,
    {
        proof {
            use_type_invariant(self);
        }
        let edges = &self.states.edges;
        let ghost links = self.states.links@;
        let mut t: usize = 0;
        while t < edges.len()
            invariant
                t <= edges@.len(),
                e < links.len(),
                links == self@.graph.links,
                ids_ok(edges@, links),
                forall|h: int| 0 <= h < t ==> !(#[trigger] edges@[h]).ids@.contains(e),
            decreases edges.len() - t,
        {
            if contains_id(&edges[t].ids, e) {
                proof {
                    let k = choose|k: int|
                        0 <= k < edges@[t as int].ids@.len() && edges@[t as int].ids@[k] == e;
                    assert(links[edges@[t as int].ids@[k] as int].owner == t);
                }
                return t;
            }
            t += 1;
        }
        proof {
            let o = links[e as int].owner;
            assert(edges@[o].ids@.contains(e));
        }
        t
    }

    /// The actions that count in the current state, each as the place of
    /// its transition and its place within it.
    fn action_indices(&self) -> (out: Vec<(usize, usize)>)
        ensures
            pairs(out@) == self@.listed(),
            forall|k: int|
                0 <= k < out@.len() ==> (#[trigger] out@[k]).0 < self@.graph.edges.len()
                    && out@[k].1 < self@.graph.edges[out@[k].0 as int].actions.len(),
    {
        proof {
            use_type_invariant(self);
        }
        let ghost g = self@.graph;
        let edges = &self.states.edges;
        let mut out: Vec<(usize, usize)> = Vec::new();
        match self.current_state {
            None => {
                let mut t: usize = 0;
                while t < edges.len()
                    invariant
                        t <= edges@.len(),
                        g.edges == edges@.map_values(|e: EdgeData| e@),
                        pairs(out@) == g.every(t as int),
                        forall|k: int|
                            0 <= k < out@.len() ==> (#[trigger] out@[k]).0 < g.edges.len()
                                && out@[k].1 < g.edges[out@[k].0 as int].actions.len(),
                    decreases edges.len() - t,
                {
                    let ghost before = out@;
                    push_batch(&mut out, t, edges[t].actions.len());
                    assert(pairs(out@) =~= pairs(before) + g.batch(t as int));
                    t += 1;
                }
            },
            Some(c) => {
                let ghost states = self.states.states@;
                let ghost arcs = graph_arcs(self.states.graph);
                let ghost s = state_of(states, c);
                let ghost leave = g.leaving(s, g.links.len() as int);
                proof {
                    lemma_entering(
                        states,
                        graph_nodes(self.states.graph),
                        arcs,
                        g,
                        s,
                        c,
                        arcs.len() as int,
                    );
                    lemma_out_marks(arcs, c);
                    assert(arcs.take(arcs.len() as int) =~= arcs);
                }
                let inc = incident_edges(&self.states.graph, c);
                let ghost skip = arcs_out(arcs, c).len();
                let mut p: usize = inc.len();
                while p > 0
                    invariant
                        p <= inc@.len(),
                        self@.graph == g,
                        g.edges == edges@.map_values(|e: EdgeData| e@),
                        edges == &self.states.edges,
                        inc@ == arcs_out(arcs, c) + arcs_in(arcs, c),
                        skip == arcs_out(arcs, c).len(),
                        arcs_in(arcs, c).len() == leave.len(),
                        g.links.len() < usize::MAX,
                        forall|q: int| 0 <= q < skip ==> !(#[trigger] arcs_out(arcs, c)[q]).1,
                        forall|q: int|
                            0 <= q < leave.len() ==> 0 <= #[trigger] leave[q] < g.links.len(),
                        forall|q: int|
                            0 <= q < leave.len() ==> #[trigger] arcs_in(arcs, c)[q] == (
                                leave[leave.len() - 1 - q] as usize,
                                true,
                            ),
                        forall|e: int|
                            0 <= e < g.links.len() ==> 0 <= (#[trigger] g.links[e]).owner
                                < g.edges.len(),
                        pairs(out@) == g.along(
                            leave.take(
                                if inc@.len() - p <= leave.len() {
                                    inc@.len() - p
                                } else {
                                    leave.len() as int
                                },
                            ),
                        ),
                        forall|k: int|
                            0 <= k < out@.len() ==> (#[trigger] out@[k]).0 < g.edges.len()
                                && out@[k].1 < g.edges[out@[k].0 as int].actions.len(),
                    decreases p,
                {
                    p -= 1;
                    let (e, incoming) = inc[p];
                    let ghost done = inc@.len() - 1 - p;
                    if incoming {
                        proof {
                            if p < skip {
                                assert(inc@[p as int] == arcs_out(arcs, c)[p as int]);
                            }
                            assert(inc@[p as int] == arcs_in(arcs, c)[p - skip]);
                            assert(e == leave[done] as usize);
                        }
                        let t = self.owner_of(e);
                        let ghost before = out@;
                        push_batch(&mut out, t, edges[t].actions.len());
                        proof {
                            assert(leave.take(done + 1).drop_last() =~= leave.take(done));
                            assert(leave.take(done + 1).last() == leave[done]);
                            assert(pairs(out@) =~= pairs(before) + g.batch(t as int));
                        }
                    } else {
                        proof {
                            if p >= skip {
                                assert(inc@[p as int] == arcs_in(arcs, c)[p - skip]);
                            }
                        }
                    }
                }
                assert(leave.take(leave.len() as int) =~= leave);
            },
        }
        out
    }

    /// The triggers that have a sequence to show, from every transition, in
    /// the order of the description. A trigger without a sequence only
    /// documents its transition, and is left out.
    pub fn list_triggers(&self) -> (r: Vec<&TransitionTrigger>)
        ensures
            r@.map_values(|t: &TransitionTrigger| *t) == self@.graph.shown(
                self@.graph.edges.len() as int,
            ),
    {
        let ghost g = self@.graph;
        let edges = &self.states.edges;
        let mut out: Vec<&TransitionTrigger> = Vec::new();
        let mut i: usize = 0;
        while i < edges.len()
            invariant
                i <= edges@.len(),
                g.edges == edges@.map_values(|e: EdgeData| e@),
                out@.map_values(|t: &TransitionTrigger| *t) == g.shown(i as int),
            decreases edges.len() - i,
        {
            let triggers = &edges[i].triggers;
            let ghost before = out@.map_values(|t: &TransitionTrigger| *t);
            let mut j: usize = 0;
            while j < triggers.len()
                invariant
                    j <= triggers@.len(),
                    out@.map_values(|t: &TransitionTrigger| *t) == before
                        + GraphView::with_sequence(triggers@, j as int),
                decreases triggers.len() - j,
            {
                if triggers[j].sequence.len() != 0 {
                    let ghost had = out@.map_values(|t: &TransitionTrigger| *t);
                    out.push(&triggers[j]);
                    assert(out@.map_values(|t: &TransitionTrigger| *t) =~= had.push(
                        triggers@[j as int],
                    ));
                    assert(before + GraphView::with_sequence(triggers@, j + 1) =~= had.push(
                        triggers@[j as int],
                    ));
                }
                j += 1;
            }
            i += 1;
        }
        out
    }

    /// Follows the transition `t`: the state that it leads to becomes the
    /// current one, and its properties are handed out for the caller to
    /// apply. A `t` that is no transition of the machine changes nothing.
    pub fn state_transition(&mut self, t: usize) -> (r: Option<Vec<Property>>)
        ensures
            match r {
                Some(props) => {
                    &&& t < old(self)@.graph.edges.len()
                    &&& props@ == old(self)@.granted(t as int)
                    &&& final(self)@ == old(self)@.entered(t as int)
                },
                None => t >= old(self)@.graph.edges.len() && final(self)@ == old(self)@,
            },
            final(self).graph() == old(self).graph(),
    {
        proof {
            use_type_invariant(&*self);
        }
        if t >= self.states.edges.len() {
            return None;
        }
        let ghost states = self.states.states@;
        proof {
            assert(self@.graph.names() =~= names_of(states));
            assert(target_ok(states, self.states.edges@[t as int]));
            lemma_resolve(names_of(states), self.states.edges@[t as int].to@);
        }
        match position(&self.states.states, &self.states.edges[t].to) {
            None => None,
            Some(i) => {
                let node = self.states.states[i].node;
                match node {
                    None => None,
                    Some(c) => {
                        let props = copy_properties(&self.states.states[i].properties);
                        self.current_state = node;
                        proof {
                            let s = state_of(states, c);
                            assert(states[i as int].node == Some(c));
                            if s != i {
                                assert(states[s].node != states[i as int].node);
                            }
                        }
                        Some(props)
                    },
                }
            },
        }
    }

    /// Classifies a line of the device. The actions that count in the
    /// current state are tried in order, and the first whose value matches
    /// the line decides: the machine follows its transition and hands out
    /// the properties of the state entered. A line that no action matches
    /// changes nothing.
    pub fn process_line(&mut self, line: &str) -> (r: Option<Vec<Property>>)
        ensures
            old(self)@.steps(line@, final(self)@, r),
            final(self).graph() == old(self).graph(),
    {
        proof {
            use_type_invariant(&*self);
        }
        let found = self.action_indices();
        let ghost m = self@;
        let mut k: usize = 0;
        while k < found.len()
            invariant
                k <= found@.len(),
                self@ == m,
                m == old(self)@,
                self.graph() == old(self).graph(),
                all_usable(m.graph.edges),
                m.graph.edges == self.states.edges@.map_values(|e: EdgeData| e@),
                pairs(found@) == m.listed(),
                forall|h: int|
                    0 <= h < found@.len() ==> (#[trigger] found@[h]).0 < m.graph.edges.len()
                        && found@[h].1 < m.graph.edges[found@[h].0 as int].actions.len(),
                forall|h: int|
                    0 <= h < k ==> !value_matches(m.graph.value(#[trigger] m.listed()[h]), line@),
            decreases found.len() - k,
        {
            let (t, j) = found[k];
            assert(pairs(found@)[k as int] == (t as int, j as int));
            let hit = match test_line(self.states.edges[t].actions[j].value.as_str(), line) {
                Ok(hit) => hit,
                Err(_) => false,
            };
            proof {
                assert(usable_at(m.graph.edges, t as int, j as int));
            }
            if hit {
                assert(m.hits(line@, k as int));
                return self.state_transition(t);
            }
            k += 1;
        }
        None
    }

    /// Every action that counts in the current state, with the transition
    /// it belongs to, in the order in which lines are tried against them.
    pub fn list_actions(&self) -> (r: Vec<(&EdgeData, &TransitionAction)>)
        ensures
            r@.len() == self@.listed().len(),
            forall|k: int|
                0 <= k < r@.len() ==> (*(#[trigger] r@[k]).0)@
                    == self@.graph.edges[self@.listed()[k].0] && *r@[k].1
                    == self@.graph.edges[self@.listed()[k].0].actions[self@.listed()[k].1],
    {
        let found = self.action_indices();
        let edges = &self.states.edges;
        let mut out: Vec<(&EdgeData, &TransitionAction)> = Vec::new();
        let mut k: usize = 0;
        while k < found.len()
            invariant
                k <= found@.len(),
                edges == &self.states.edges,
                pairs(found@) == self@.listed(),
                forall|h: int|
                    0 <= h < found@.len() ==> (#[trigger] found@[h]).0 < self@.graph.edges.len()
                        && found@[h].1 < self@.graph.edges[found@[h].0 as int].actions.len(),
                out@.len() == k,
                forall|h: int|
                    0 <= h < k ==> (*(#[trigger] out@[h]).0)@
                        == self@.graph.edges[self@.listed()[h].0] && *out@[h].1
                        == self@.graph.edges[self@.listed()[h].0].actions[self@.listed()[h].1],
            decreases found.len() - k,
        {
            let (t, j) = found[k];
            assert(pairs(found@)[k as int] == (t as int, j as int));
            out.push((&edges[t], &edges[t].actions[j]));
            k += 1;
        }
        out
    }
}

} // verus!
