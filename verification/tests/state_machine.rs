use fbug::config::{
    ConfigError, ControlAction, GlobalProperties, Property, TransitionAction, TransitionTrigger,
    TransitionTriggerSequence,
};
use fbug::matching::{find_text, is_usable, test_line, MatchError};
use fbug::state::{fits, get_states_for_transition, EdgeData, State, StateMachine, Transition};

fn baud(rate: u32) -> Property {
    Property { name: GlobalProperties::Baud(rate) }
}

fn state(name: &str, properties: Vec<Property>) -> State {
    State::new(name.to_string(), properties)
}

fn action(value: &str) -> TransitionAction {
    TransitionAction { source: "UART".to_string(), event: "line".to_string(), value: value.to_string() }
}

fn transition(from: &[&str], to: &str, values: &[&str]) -> Transition {
    Transition::new(
        to.to_string(),
        from.iter().map(|s| s.to_string()).collect(),
        values.iter().map(|v| action(v)).collect(),
        Vec::<TransitionTrigger>::new(),
    )
}

fn listed(sm: &StateMachine) -> Vec<(String, String)> {
    sm.list_actions().iter().map(|(t, a)| (t.to.clone(), a.value.clone())).collect()
}

fn pair(to: &str, value: &str) -> (String, String) {
    (to.to_string(), value.to_string())
}

#[test]
fn boot_then_ready() {
    let states = vec![state("Boot", vec![baud(9600)]), state("Ready", vec![baud(115200)])];
    let transitions = vec![transition(&["Boot"], "Ready", &["READY"])];
    let mut sm = StateMachine::new(states, transitions).unwrap();
    assert_eq!(sm.process_line("booting"), None);
    assert_eq!(sm.process_line("still booting"), None);
    assert_eq!(sm.process_line("READY"), Some(vec![baud(115200)]));
}

#[test]
fn unknown_state_lists_every_action_once() {
    let states = vec![state("A", vec![]), state("B", vec![]), state("C", vec![])];
    let transitions = vec![
        transition(&["A", "B"], "C", &["one", "two"]),
        transition(&[], "A", &["three"]),
        transition(&["C"], "B", &[]),
    ];
    let sm = StateMachine::new(states, transitions).unwrap();
    assert_eq!(listed(&sm), vec![pair("C", "one"), pair("C", "two"), pair("A", "three")]);
}

#[test]
fn known_state_lists_what_leaves_it() {
    let states = vec![state("A", vec![]), state("B", vec![]), state("C", vec![])];
    let transitions = vec![
        transition(&["A", "B"], "C", &["to-c"]),
        transition(&["C"], "A", &["to-a"]),
        transition(&["A"], "B", &["to-b"]),
        transition(&["B"], "A", &["back"]),
    ];
    let mut sm = StateMachine::new(states, transitions).unwrap();
    assert_eq!(sm.process_line("now to-a"), Some(vec![]));
    assert_eq!(listed(&sm), vec![pair("C", "to-c"), pair("B", "to-b")]);
    assert_eq!(sm.process_line("back"), None);
    assert_eq!(sm.process_line("to-b"), Some(vec![]));
    assert_eq!(listed(&sm), vec![pair("C", "to-c"), pair("A", "back")]);
}

#[test]
fn first_declared_wins_while_unknown() {
    let states = vec![state("A", vec![]), state("B", vec![baud(1)]), state("C", vec![baud(2)])];
    let transitions =
        vec![transition(&["A"], "B", &["GO"]), transition(&["A"], "C", &["GOAL"])];
    let mut sm = StateMachine::new(states, transitions).unwrap();
    assert_eq!(sm.process_line("GOAL!"), Some(vec![baud(1)]));
}

#[test]
fn first_declared_wins_in_a_known_state() {
    let states = vec![state("A", vec![]), state("B", vec![baud(1)]), state("C", vec![baud(2)])];
    let transitions = vec![
        transition(&[], "A", &["reset"]),
        transition(&["A"], "B", &["GO"]),
        transition(&["A"], "C", &["GOAL"]),
    ];
    let mut sm = StateMachine::new(states, transitions).unwrap();
    assert_eq!(sm.process_line("reset"), Some(vec![]));
    assert_eq!(listed(&sm), vec![pair("B", "GO"), pair("C", "GOAL")]);
    assert_eq!(sm.process_line("GOAL!"), Some(vec![baud(1)]));
}

#[test]
fn earlier_action_of_one_transition_wins() {
    let states = vec![state("A", vec![]), state("B", vec![baud(7)])];
    let transitions = vec![transition(&["A"], "B", &["x", "y"])];
    let mut sm = StateMachine::new(states, transitions).unwrap();
    assert_eq!(sm.process_line("y"), Some(vec![baud(7)]));
}

#[test]
fn marked_value_is_a_regular_expression() {
    let states = vec![state("Run", vec![]), state("Failed", vec![baud(300)])];
    let transitions = vec![transition(&["Run"], "Failed", &["^ERR"])];
    let mut sm = StateMachine::new(states.clone(), transitions.clone()).unwrap();
    assert_eq!(sm.process_line("boot ERR 12"), Some(vec![baud(300)]));
    let mut sm = StateMachine::new(states.clone(), transitions.clone()).unwrap();
    assert_eq!(sm.process_line("ERR"), Some(vec![baud(300)]));
    let mut sm = StateMachine::new(states, transitions).unwrap();
    assert_eq!(sm.process_line("err"), None);
    assert_eq!(sm.process_line("E R R"), None);
}

#[test]
fn anchored_expression_matches_at_the_start_only() {
    let states = vec![state("Run", vec![]), state("Failed", vec![])];
    let transitions = vec![transition(&["Run"], "Failed", &["^^ERR[0-9]+$"])];
    let mut sm = StateMachine::new(states, transitions).unwrap();
    assert_eq!(sm.process_line("boot ERR12"), None);
    assert_eq!(sm.process_line("ERR12 "), None);
    assert_eq!(sm.process_line("ERR12"), Some(vec![]));
}

#[test]
fn literal_value_matches_that_text_only() {
    let states = vec![state("Boot", vec![]), state("Ready", vec![])];
    let transitions = vec![transition(&["Boot"], "Ready", &["READY"])];
    let mut sm = StateMachine::new(states, transitions).unwrap();
    assert_eq!(sm.process_line("READ"), None);
    assert_eq!(sm.process_line("ready"), None);
    assert_eq!(sm.process_line("REA DY"), None);
    assert_eq!(sm.process_line("R.ADY"), None);
    assert_eq!(sm.process_line("<<READY>>"), Some(vec![]));
}

#[test]
fn literal_value_is_not_read_as_an_expression() {
    let states = vec![state("Boot", vec![]), state("Ready", vec![])];
    let transitions = vec![transition(&["Boot"], "Ready", &["a.c"])];
    let mut sm = StateMachine::new(states, transitions).unwrap();
    assert_eq!(sm.process_line("abc"), None);
    assert_eq!(sm.process_line("xa.cx"), Some(vec![]));
}

#[test]
fn empty_literal_matches_every_line() {
    let states = vec![state("Boot", vec![]), state("Ready", vec![baud(5)])];
    let transitions = vec![transition(&["Boot"], "Ready", &[""])];
    let mut sm = StateMachine::new(states, transitions).unwrap();
    assert_eq!(sm.process_line(""), Some(vec![baud(5)]));
}

#[test]
fn wildcard_is_reachable_from_every_other_state() {
    let states = vec![state("A", vec![]), state("B", vec![]), state("Panic", vec![baud(9600)])];
    let transitions = vec![
        transition(&["A"], "B", &["b"]),
        transition(&["B"], "A", &["a"]),
        transition(&[], "Panic", &["Oops"]),
    ];
    let mut sm = StateMachine::new(states.clone(), transitions.clone()).unwrap();
    assert_eq!(sm.process_line("Oops"), Some(vec![baud(9600)]));
    assert_eq!(listed(&sm), vec![]);
    assert_eq!(sm.process_line("Oops"), None);

    let mut sm = StateMachine::new(states.clone(), transitions.clone()).unwrap();
    assert_eq!(sm.process_line("b"), Some(vec![]));
    assert_eq!(listed(&sm), vec![pair("A", "a"), pair("Panic", "Oops")]);
    assert_eq!(sm.process_line("Oops"), Some(vec![baud(9600)]));

    let mut sm = StateMachine::new(states, transitions).unwrap();
    assert_eq!(sm.process_line("a"), Some(vec![]));
    assert_eq!(listed(&sm), vec![pair("B", "b"), pair("Panic", "Oops")]);
    assert_eq!(sm.process_line("Oops"), Some(vec![baud(9600)]));
}

#[test]
fn one_edge_for_each_state_left() {
    let states = vec![state("A", vec![]), state("B", vec![]), state("C", vec![]), state("D", vec![])];
    let transitions = vec![
        transition(&["A", "B", "C"], "D", &["d"]),
        transition(&[], "A", &["a"]),
        transition(&["D"], "B", &["b"]),
    ];
    let sm = StateMachine::new(states, transitions).unwrap();
    let ids: Vec<Vec<usize>> = sm.list_actions().iter().map(|(t, _)| t.ids.clone()).collect();
    assert_eq!(ids, vec![vec![0, 1, 2], vec![3, 4, 5], vec![6]]);
}

#[test]
fn a_state_named_twice_is_left_by_two_edges() {
    let states = vec![state("A", vec![]), state("B", vec![])];
    let transitions = vec![transition(&["A", "A"], "B", &["b"]), transition(&[], "A", &["a"])];
    let mut sm = StateMachine::new(states, transitions).unwrap();
    assert_eq!(sm.process_line("a"), Some(vec![]));
    assert_eq!(listed(&sm), vec![pair("B", "b"), pair("B", "b")]);
}

#[test]
fn transition_onto_itself() {
    let states = vec![state("A", vec![baud(1200)])];
    let transitions = vec![transition(&["A"], "A", &["again"])];
    let mut sm = StateMachine::new(states, transitions).unwrap();
    assert_eq!(sm.process_line("again"), Some(vec![baud(1200)]));
    assert_eq!(listed(&sm), vec![pair("A", "again")]);
    assert_eq!(sm.process_line("again"), Some(vec![baud(1200)]));
}

#[test]
fn unknown_target_is_reported() {
    let states = vec![state("A", vec![])];
    let transitions = vec![transition(&["A"], "A", &["x"]), transition(&["A"], "Nowhere", &["y"])];
    assert_eq!(
        StateMachine::new(states, transitions).err(),
        Some(ConfigError::UnknownState("Nowhere".to_string()))
    );
}

#[test]
fn unknown_source_is_reported_before_the_target() {
    let states = vec![state("A", vec![])];
    let transitions = vec![transition(&["A", "Ghost", "Other"], "Nowhere", &["y"])];
    assert_eq!(
        StateMachine::new(states, transitions).err(),
        Some(ConfigError::UnknownState("Ghost".to_string()))
    );
}

#[test]
fn malformed_expression_is_reported() {
    let states = vec![state("A", vec![]), state("B", vec![])];
    let transitions = vec![transition(&["A"], "B", &["fine", "^fine", "^(", "^["])];
    assert_eq!(
        StateMachine::new(states, transitions).err(),
        Some(ConfigError::MalformedPattern("^(".to_string()))
    );
}

#[test]
fn unknown_state_is_reported_before_a_malformed_expression() {
    let states = vec![state("A", vec![])];
    let transitions = vec![transition(&["A"], "A", &["^("]), transition(&["B"], "A", &[])];
    assert_eq!(
        StateMachine::new(states, transitions).err(),
        Some(ConfigError::UnknownState("B".to_string()))
    );
}

#[test]
fn two_states_of_one_name_are_refused() {
    let states = vec![state("A", vec![baud(1)]), state("B", vec![]), state("A", vec![baud(2)])];
    let transitions = vec![transition(&["B"], "A", &["a"])];
    assert_eq!(StateMachine::new(states, transitions).err(), Some(ConfigError::DuplicateState));
}

#[test]
fn two_transitions_of_one_route_are_refused() {
    let states = vec![state("A", vec![]), state("B", vec![])];
    let transitions = vec![
        transition(&["A"], "B", &["b"]),
        transition(&["B"], "A", &["a"]),
        transition(&["A"], "B", &["again"]),
    ];
    assert_eq!(
        StateMachine::new(states, transitions).err(),
        Some(ConfigError::DuplicateTransition)
    );
    let states = vec![state("A", vec![]), state("B", vec![])];
    let transitions = vec![transition(&[], "B", &["b"]), transition(&[], "B", &["c"])];
    assert_eq!(
        StateMachine::new(states, transitions).err(),
        Some(ConfigError::DuplicateTransition)
    );
}

#[test]
fn the_order_of_the_refusals() {
    let twice = || vec![state("A", vec![]), state("A", vec![])];
    let once = || vec![state("A", vec![])];
    let same = || vec![transition(&["X"], "A", &["^("]), transition(&["X"], "A", &[])];
    let stray = || vec![transition(&["X"], "A", &["^("])];
    let broken = || vec![transition(&["A"], "A", &["^("])];
    assert_eq!(StateMachine::new(twice(), same()).err(), Some(ConfigError::DuplicateState));
    assert_eq!(StateMachine::new(once(), same()).err(), Some(ConfigError::DuplicateTransition));
    assert_eq!(
        StateMachine::new(once(), stray()).err(),
        Some(ConfigError::UnknownState("X".to_string()))
    );
    assert_eq!(
        StateMachine::new(once(), broken()).err(),
        Some(ConfigError::MalformedPattern("^(".to_string()))
    );
}

#[test]
fn transitions_that_share_only_a_part_of_their_route_pass() {
    let states = vec![state("A", vec![]), state("B", vec![])];
    let transitions = vec![
        transition(&["A"], "B", &["1"]),
        transition(&["A", "A"], "B", &["2"]),
        transition(&["A", "B"], "B", &["3"]),
        transition(&["B", "A"], "B", &["4"]),
        transition(&[], "B", &["5"]),
        transition(&["A"], "A", &["6"]),
    ];
    let sm = StateMachine::new(states, transitions).unwrap();
    let ids: Vec<Vec<usize>> = sm.list_actions().iter().map(|(t, _)| t.ids.clone()).collect();
    assert_eq!(ids, vec![vec![0], vec![1, 2], vec![3, 4], vec![5, 6], vec![7], vec![8]]);
}

#[test]
fn state_transition_by_place() {
    let states = vec![state("A", vec![baud(1)]), state("B", vec![baud(2)])];
    let transitions = vec![transition(&["A"], "B", &["b"]), transition(&["B"], "A", &["a"])];
    let mut sm = StateMachine::new(states, transitions).unwrap();
    assert_eq!(sm.state_transition(2), None);
    assert_eq!(listed(&sm), vec![pair("B", "b"), pair("A", "a")]);
    assert_eq!(sm.state_transition(1), Some(vec![baud(1)]));
    assert_eq!(listed(&sm), vec![pair("B", "b")]);
    assert_eq!(sm.state_transition(0), Some(vec![baud(2)]));
    assert_eq!(listed(&sm), vec![pair("A", "a")]);
}

#[test]
fn handles_brought_along_are_dropped() {
    let mut a = state("A", vec![]);
    a.node = Some(40);
    let mut b = state("B", vec![baud(3)]);
    b.node = Some(40);
    let mut t = transition(&["A"], "B", &["b"]);
    t.ids = vec![9, 9];
    let mut sm = StateMachine::new(vec![a, b], vec![t]).unwrap();
    let ids: Vec<Vec<usize>> = sm.list_actions().iter().map(|(t, _)| t.ids.clone()).collect();
    assert_eq!(ids, vec![vec![0]]);
    assert_eq!(sm.process_line("b"), Some(vec![baud(3)]));
    assert_eq!(listed(&sm), vec![]);
}

#[test]
fn values_tested_against_lines() {
    assert_eq!(test_line("READY", "system READY now"), Ok(true));
    assert_eq!(test_line("READY", "system ready now"), Ok(false));
    assert_eq!(test_line("^R.ADY", "system READY now"), Ok(true));
    assert_eq!(test_line("^^READY", "system READY now"), Ok(false));
    assert_eq!(test_line("^", "anything"), Ok(true));
    assert_eq!(test_line("", ""), Ok(true));
    assert_eq!(test_line("a", ""), Ok(false));
    assert_eq!(test_line("^a{2,1}", "aa"), Err(MatchError { value: "^a{2,1}".to_string() }));
    assert_eq!(test_line("é^", "café^"), Ok(true));
    assert!(is_usable("plain ( text"));
    assert!(is_usable("^a|b"));
    assert!(!is_usable("^(a|b"));
    let chars = |s: &str| s.chars().collect::<Vec<char>>();
    assert!(find_text(&chars("abcabd"), &chars("abd")));
    assert!(find_text(&chars("abcabd"), &chars("")));
    assert!(!find_text(&chars("abcabd"), &chars("abdd")));
    assert!(!find_text(&chars("ab"), &chars("abc")));
}

fn trigger(name: &str, steps: usize) -> TransitionTrigger {
    TransitionTrigger {
        to: String::new(),
        from: vec![],
        name: name.to_string(),
        description: None,
        sequence: (0..steps)
            .map(|_| TransitionTriggerSequence {
                control: "power".to_string(),
                action: ControlAction::Press,
                duration: None,
            })
            .collect(),
        timeout: None,
    }
}

#[test]
fn triggers_without_a_sequence_are_not_listed() {
    let states = vec![state("A", vec![]), state("B", vec![])];
    let mut first = transition(&["A"], "B", &["b"]);
    first.triggers = vec![trigger("note", 0), trigger("tap", 1), trigger("hold", 3)];
    let mut second = transition(&["B"], "A", &[]);
    second.triggers = vec![trigger("plug", 2), trigger("remark", 0)];
    let mut third = transition(&[], "A", &[]);
    third.triggers = vec![trigger("silent", 0)];
    let mut sm = StateMachine::new(states, vec![first, second, third]).unwrap();
    let names = |sm: &StateMachine| {
        sm.list_triggers().iter().map(|t| t.name.clone()).collect::<Vec<String>>()
    };
    assert_eq!(names(&sm), vec!["tap", "hold", "plug"]);
    assert_eq!(sm.process_line("b"), Some(vec![]));
    assert_eq!(names(&sm), vec!["tap", "hold", "plug"]);
}

#[test]
fn machine_without_transitions() {
    let mut sm = StateMachine::new(vec![state("A", vec![baud(1)])], vec![]).unwrap();
    assert_eq!(listed(&sm), vec![]);
    assert_eq!(sm.list_triggers().len(), 0);
    assert_eq!(sm.process_line("anything"), None);
    let mut empty = StateMachine::new(vec![], vec![]).unwrap();
    assert_eq!(empty.process_line(""), None);
}

#[test]
fn wildcard_among_one_state_has_no_edge() {
    let states = vec![state("Only", vec![baud(4800)])];
    let transitions = vec![transition(&[], "Only", &["up"])];
    let mut sm = StateMachine::new(states, transitions).unwrap();
    let ids: Vec<Vec<usize>> = sm.list_actions().iter().map(|(t, _)| t.ids.clone()).collect();
    assert_eq!(ids, vec![Vec::<usize>::new()]);
    assert_eq!(sm.process_line("up"), Some(vec![baud(4800)]));
    assert_eq!(listed(&sm), vec![]);
    assert_eq!(sm.process_line("up"), None);
}

#[test]
fn names_are_resolved_to_places() {
    let states = vec![state("A", vec![]), state("B", vec![]), state("C", vec![]), state("B", vec![])];
    let found = get_states_for_transition(&states, &transition(&["C", "B", "C"], "A", &[]));
    assert_eq!(found, Ok((0, vec![2, 1, 2])));
    let found = get_states_for_transition(&states, &transition(&[], "B", &[]));
    assert_eq!(found, Ok((1, vec![0, 2, 3])));
    let found = get_states_for_transition(&states, &transition(&[], "D", &[]));
    assert_eq!(found, Err(ConfigError::UnknownState("D".to_string())));
    let found = get_states_for_transition(&states, &transition(&["A", "E", "F"], "D", &[]));
    assert_eq!(found, Err(ConfigError::UnknownState("E".to_string())));
}

#[test]
fn descriptions_fit_the_graph() {
    let states = vec![state("A", vec![]), state("B", vec![])];
    let transitions = vec![transition(&["A"], "B", &["b"]), transition(&[], "A", &["a"])];
    assert!(fits(&states, &transitions));
    assert!(fits(&vec![], &vec![]));
}

#[test]
fn edge_data_of_a_transition() {
    let mut t = transition(&["A"], "B", &["b"]);
    t.triggers = vec![trigger("tap", 1)];
    t.ids = vec![4];
    let e = EdgeData::from(t.clone());
    assert_eq!(e.to, t.to);
    assert_eq!(e.actions, t.actions);
    assert_eq!(e.triggers, t.triggers);
    assert_eq!(e.ids, t.ids);
}
