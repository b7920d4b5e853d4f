//! The description of a device: its connections, controls, states and
//! transitions, and the checks a description has to pass.

use vstd::prelude::*;
use crate::state::{State, Transition};

verus! {

/// A device as its description gives it.
#[derive(Debug, Clone)]
pub struct Device {
    pub name: String,
    pub codename: String,
    pub description: Option<String>,
    pub username: Option<String>,
    pub password: Option<String>,
    pub resting_state: Option<String>,
    pub connections: Vec<ConnectionInfo>,
    pub controls: Vec<Control>,
    pub states: Vec<State>,
    pub transitions: Vec<Transition>,
}

/// Why a description of a device is refused.
#[derive(Debug, PartialEq, Clone)]
pub enum ConfigError {
    /// A transition names a state that the description does not hold.
    UnknownState(String),
    /// Two states have the same name.
    DuplicateState,
    /// Two transitions leave the same states for the same one.
    DuplicateTransition,
    /// A control names a connection that the description does not hold.
    UnknownConnection { control: String, connection: String },
    /// The value of an action holds a regular expression that does not
    /// compile.
    MalformedPattern(String),
}

/// One way of reaching the device.
#[derive(Debug, PartialEq, Clone)]
pub enum ConnectionInfo {
    Serial(SerialConfig),
    Usb(UsbConnection),
    Ssh(SshConnection),
}

/// Baud rate of a serial connection that names none.
pub fn _default_baud() -> (baud: u32)
    ensures
        baud == 115200,
{
    115200
}

/// Whether a serial connection that does not say so is read line by line.
pub fn _default_lines() -> (lines: bool)
    ensures
        lines,
{
    true
}

/// Label of a serial connection that names none.
pub fn _default_uart_label() -> (label: String)
    ensures
        label@ == "UART"@,
{
    "UART".to_string()
}

/// A serial port: the device file, its speed and how it is read.
#[derive(Debug, PartialEq, Clone)]
pub struct SerialConfig {
    pub label: String,
    pub getty: bool,
    /// The device file, as text.
    pub path: String,
    pub baud: u32,
    pub lines: bool,
}

/// Label of a USB connection that names none.
pub fn _default_usb_label() -> (label: String)
    ensures
        label@ == "USB"@,
{
    "USB".to_string()
}

/// A USB connection.
#[derive(Debug, PartialEq, Clone)]
pub struct UsbConnection {
    pub label: String,
    pub port: String,
}

/// Label of an SSH connection that names none.
pub fn _default_ssh_label() -> (label: String)
    ensures
        label@ == "SSH"@,
{
    "SSH".to_string()
}

/// A connection over SSH.
#[derive(Debug, PartialEq, Clone)]
pub struct SshConnection {
    pub label: String,
    pub host: String,
    pub port: u16,
}

/// Something on the device that an operator can work, through one of the
/// connections.
#[derive(Debug, PartialEq, Clone)]
pub struct Control {
    pub name: String,
    /// Label of the connection that carries the control.
    pub connection: String,
    pub control_type: ControlType,
}

/// The kinds of control.
#[derive(Debug, PartialEq, Clone)]
pub enum ControlType {
    Button(ButtonControl),
    Command(CommandControl),
}

/// What a button is wired to.
#[derive(Debug, PartialEq, Clone)]
pub enum Action {
    Dtr,
    Rts,
    Command,
}

/// A control that is pressed and released.
#[derive(Debug, PartialEq, Clone)]
pub struct ButtonControl {
    pub action: String,
}

/// A control that is worked by sending a command.
#[derive(Debug, PartialEq, Clone)]
pub struct CommandControl {
    pub command_on: String,
    pub command_off: String,
}

/// A setting of the hardware that a state asks for.
#[derive(Debug, PartialEq, Eq, PartialOrd, Ord, Clone, Copy)]
pub enum GlobalProperties {
    Baud(u32),
}

/// A setting applied when the state that declares it is entered.
#[derive(Debug, PartialEq, Eq, PartialOrd, Ord, Clone, Copy)]
pub struct Property {
    pub name: GlobalProperties,
}

/// A pattern in the output of one connection that reveals a transition.
#[derive(Debug, PartialEq, Clone)]
pub struct TransitionAction {
    /// Label of the connection whose output is watched.
    pub source: String,
    pub event: String,
    /// A literal text, or after the mark a regular expression.
    pub value: String,
}

/// How an operator can bring a transition about.
#[derive(Debug, PartialEq, Clone)]
pub struct TransitionTrigger {
    pub to: String,
    pub from: Vec<String>,
    pub name: String,
    pub description: Option<String>,
    pub sequence: Vec<TransitionTriggerSequence>,
    pub timeout: Option<u32>,
}

/// What is done to a control in one step of a trigger.
#[derive(Debug, PartialEq, Clone)]
pub enum ControlAction {
    Press,
    Release,
    Hold,
}

/// One step of a trigger.
#[derive(Debug, PartialEq, Clone)]
pub struct TransitionTriggerSequence {
    pub control: String,
    pub action: ControlAction,
    /// Milliseconds the step lasts, where it has a duration.
    pub duration: Option<u32>,
}

/// The label of a connection.
pub open spec fn label_of(c: ConnectionInfo) -> Seq<char> {
    match c {
        ConnectionInfo::Serial(s) => s.label@,
        ConnectionInfo::Usb(u) => u.label@,
        ConnectionInfo::Ssh(s) => s.label@,
    }
}

/// The texts of `names`, in order.
pub open spec fn texts(names: Seq<String>) -> Seq<Seq<char>> {
    names.map_values(|s: String| s@)
}

/// The states at `a` and at `b`, which comes later, have the same name.
pub open spec fn twin_states_at(states: Seq<State>, a: int, b: int) -> bool {
    0 <= a < b < states.len() && states[a].name@ == states[b].name@
}

/// Two states have the same name.
pub open spec fn twin_states(states: Seq<State>) -> bool {
    exists|a: int, b: int| twin_states_at(states, a, b)
}

/// Two transitions leave the same states for the same one.
pub open spec fn same_route(a: Transition, b: Transition) -> bool {
    texts(a.from@) == texts(b.from@) && a.to@ == b.to@
}

/// The transitions at `a` and at `b`, which comes later, leave the same
/// states for the same one.
pub open spec fn twin_transitions_at(transitions: Seq<Transition>, a: int, b: int) -> bool {
    0 <= a < b < transitions.len() && same_route(transitions[a], transitions[b])
}

/// Two transitions leave the same states for the same one.
pub open spec fn twin_transitions(transitions: Seq<Transition>) -> bool {
    exists|a: int, b: int| twin_transitions_at(transitions, a, b)
}

/// One of the connections has the label `label`.
pub open spec fn known_connection(connections: Seq<ConnectionInfo>, label: Seq<char>) -> bool {
    exists|i: int| 0 <= i < connections.len() && label_of(#[trigger] connections[i]) == label
}

/// The control at `k` is the first that names a connection which the
/// device does not have.
pub open spec fn first_stray_control(device: Device, k: int) -> bool {
    &&& 0 <= k < device.controls@.len()
    &&& !known_connection(device.connections@, device.controls@[k].connection@)
    &&& forall|j: int|
        0 <= j < k ==> known_connection(
            device.connections@,
            (#[trigger] device.controls@[j]).connection@,
        )
}

/// The description passes the checks: no two states share a name, no two
/// transitions share their route, and every control names a connection of
/// the device.
pub open spec fn acceptable(device: Device) -> bool {
    &&& !twin_states(device.states@)
    &&& !twin_transitions(device.transitions@)
    &&& forall|k: int|
        0 <= k < device.controls@.len() ==> known_connection(
            device.connections@,
            (#[trigger] device.controls@[k]).connection@,
        )
}

/// `e` is what the checks answer to the description: the first of the
/// three checks that fails decides, and of the controls the first that
/// fails is named.
pub open spec fn refusal(device: Device, e: ConfigError) -> bool {
    match e {
        ConfigError::DuplicateState => twin_states(device.states@),
        ConfigError::DuplicateTransition => !twin_states(device.states@) && twin_transitions(
            device.transitions@,
        ),
        ConfigError::UnknownConnection { control, connection } => {
            &&& !twin_states(device.states@)
            &&& !twin_transitions(device.transitions@)
            &&& exists|k: int| #[trigger]
                first_stray_control(device, k) && control@ == device.controls@[k].name@
                    && connection@ == device.controls@[k].connection@
        },
        _ => false,
    }
}

fn same_texts(a: &Vec<String>, b: &Vec<String>) -> (same: bool)
    ensures
        same == (texts(a@) == texts(b@)),
{
    if a.len() != b.len() {
        assert(texts(a@).len() != texts(b@).len());
        return false;
    }
    let mut i: usize = 0;
    while i < a.len()
        invariant
            i <= a@.len(),
            a@.len() == b@.len(),
            forall|k: int| 0 <= k < i ==> a@[k]@ == b@[k]@,
        decreases a.len() - i,
    {
        if a[i] != b[i] {
            assert(texts(a@)[i as int] != texts(b@)[i as int]);
            return false;
        }
        i += 1;
    }
    assert(texts(a@) =~= texts(b@));
    true
}

fn has_connection(connections: &Vec<ConnectionInfo>, label: &String) -> (known: bool)
    ensures
        known == known_connection(connections@, label@),
{
    let mut i: usize = 0;
    while i < connections.len()
        invariant
            i <= connections@.len(),
            forall|k: int| 0 <= k < i ==> label_of(#[trigger] connections@[k]) != label@,
        decreases connections.len() - i,
    {
        let found = match &connections[i] {
            ConnectionInfo::Serial(s) => s.label == *label,
            ConnectionInfo::Usb(u) => u.label == *label,
            ConnectionInfo::Ssh(s) => s.label == *label,
        };
        if found {
            return true;
        }
        i += 1;
    }
    false
}

/// Whether two of the states have the same name.
pub fn has_twin_states(states: &Vec<State>) -> (b: bool)
    ensures
        b == twin_states(states@),
{
    let mut j: usize = 0;
    while j < states.len()
        invariant
            forall|a: int, b: int| 0 <= a < b < j ==> !twin_states_at(states@, a, b),
        decreases states.len() - j,
    {
        let mut i: usize = 0;
        while i < j
            invariant
                i <= j < states@.len(),
                forall|a: int| 0 <= a < i ==> !twin_states_at(states@, a, j as int),
            decreases j - i,
        {
            if states[i].name == states[j].name {
                assert(twin_states_at(states@, i as int, j as int));
                return true;
            }
            i += 1;
        }
        j += 1;
    }
    false
}

/// Whether two of the transitions leave the same states for the same one.
pub fn has_twin_transitions(transitions: &Vec<Transition>) -> (b: bool)
    ensures
        b == twin_transitions(transitions@),
{
    let mut j: usize = 0;
    while j < transitions.len()
        invariant
            forall|a: int, b: int| 0 <= a < b < j ==> !twin_transitions_at(transitions@, a, b),
        decreases transitions.len() - j,
    {
        let mut i: usize = 0;
        while i < j
            invariant
                i <= j < transitions@.len(),
                forall|a: int| 0 <= a < i ==> !twin_transitions_at(transitions@, a, j as int),
            decreases j - i,
        {
            let a = &transitions[i];
            let b = &transitions[j];
            if same_texts(&a.from, &b.from) && a.to == b.to {
                assert(twin_transitions_at(transitions@, i as int, j as int));
                return true;
            }
            i += 1;
        }
        j += 1;
    }
    false
}

/// Checks a description of a device.
pub fn validate_config(config: &Device) -> (r: Result<(), ConfigError>)
    ensures
        r is Ok <==> acceptable(*config),
        match r {
            Ok(()) => acceptable(*config),
            Err(e) => refusal(*config, e),
        },
{
    if has_twin_states(&config.states) {
        return Err(ConfigError::DuplicateState);
    }
    if has_twin_transitions(&config.transitions) {
        return Err(ConfigError::DuplicateTransition);
    }
    let mut k: usize = 0;
    while k < config.controls.len()
        invariant
            k <= config.controls@.len(),
            !twin_states(config.states@),
            !twin_transitions(config.transitions@),
            forall|j: int|
                0 <= j < k ==> known_connection(
                    config.connections@,
                    (#[trigger] config.controls@[j]).connection@,
                ),
        decreases config.controls.len() - k,
    {
        let control = &config.controls[k];
        if !has_connection(&config.connections, &control.connection) {
            assert(first_stray_control(*config, k as int));
            return Err(
                ConfigError::UnknownConnection {
                    control: control.name.clone(),
                    connection: control.connection.clone(),
                },
            );
        }
        k += 1;
    }
    Ok(())
}

/// What loading makes of a trigger of the transition `t`: it leads where
/// the transition leads, and where it names no state to leave, it leaves
/// those that the transition names.
pub open spec fn filled(t: Transition, before: TransitionTrigger, after: TransitionTrigger) -> bool {
    &&& after.to@ == t.to@
    &&& texts(after.from@) == if before.from@.len() == 0 {
        texts(t.from@)
    } else {
        texts(before.from@)
    }
    &&& after.name == before.name
    &&& after.description == before.description
    &&& after.sequence == before.sequence
    &&& after.timeout == before.timeout
}

/// What loading makes of a transition: its triggers are filled in, and
/// nothing else changes.
pub open spec fn filled_transition(before: Transition, after: Transition) -> bool {
    &&& after.to == before.to
    &&& after.from == before.from
    &&& after.actions == before.actions
    &&& after.ids == before.ids
    &&& after.triggers@.len() == before.triggers@.len()
    &&& forall|j: int|
        0 <= j < before.triggers@.len() ==> filled(
            before,
            before.triggers@[j],
            #[trigger] after.triggers@[j],
        )
}

/// What loading makes of a description: the triggers of its transitions
/// are filled in, and nothing else changes.
pub open spec fn loaded(before: Device, after: Device) -> bool {
    &&& after.name == before.name
    &&& after.codename == before.codename
    &&& after.description == before.description
    &&& after.username == before.username
    &&& after.password == before.password
    &&& after.resting_state == before.resting_state
    &&& after.connections == before.connections
    &&& after.controls == before.controls
    &&& after.states == before.states
    &&& after.transitions@.len() == before.transitions@.len()
    &&& forall|i: int|
        0 <= i < before.transitions@.len() ==> filled_transition(
            before.transitions@[i],
            #[trigger] after.transitions@[i],
        )
}

fn copy_texts(names: &Vec<String>) -> (out: Vec<String>)
    ensures
        out@ == names@,
{
    let mut out: Vec<String> = Vec::new();
    let mut k: usize = 0;
    while k < names.len()
        invariant
            k <= names@.len(),
            out@ == names@.take(k as int),
        decreases names.len() - k,
    {
        out.push(names[k].clone());
        k += 1;
    }
    assert(names@.take(k as int) =~= names@);
    out
}

/// Fills in the triggers of one transition.
fn fill_triggers(t: &mut Transition)
    ensures
        filled_transition(*old(t), *final(t)),
{
    let mut j: usize = 0;
    while j < t.triggers.len()
        invariant
            j <= t.triggers@.len(),
            t.to == old(t).to,
            t.from == old(t).from,
            t.actions == old(t).actions,
            t.ids == old(t).ids,
            t.triggers@.len() == old(t).triggers@.len(),
            forall|k: int|
                0 <= k < j ==> filled(*old(t), old(t).triggers@[k], #[trigger] t.triggers@[k]),
            forall|k: int| j <= k < t.triggers@.len() ==> t.triggers@[k] == old(t).triggers@[k],
        decreases t.triggers.len() - j,
    {
        if t.triggers[j].from.len() == 0 {
            let from = copy_texts(&t.from);
            t.triggers[j].from = from;
        }
        let to = t.to.clone();
        t.triggers[j].to = to;
        j += 1;
    }
}

/// Loads a description that has been read: fills in the triggers of its
/// transitions from the transitions themselves, and checks the result.
pub fn load_config(device: Device) -> (r: Result<Device, ConfigError>)
    ensures
        r is Ok <==> acceptable(device),
        match r {
            Ok(d) => acceptable(device) && loaded(device, d),
            Err(e) => refusal(device, e),
        },
{
    let mut d = device;
    let mut i: usize = 0;
    while i < d.transitions.len()
        invariant
            i <= d.transitions@.len(),
            d.name == device.name,
            d.codename == device.codename,
            d.description == device.description,
            d.username == device.username,
            d.password == device.password,
            d.resting_state == device.resting_state,
            d.connections == device.connections,
            d.controls == device.controls,
            d.states == device.states,
            d.transitions@.len() == device.transitions@.len(),
            forall|k: int|
                0 <= k < i ==> filled_transition(
                    device.transitions@[k],
                    #[trigger] d.transitions@[k],
                ),
            forall|k: int|
                i <= k < d.transitions@.len() ==> d.transitions@[k] == device.transitions@[k],
        decreases d.transitions.len() - i,
    {
        fill_triggers(&mut d.transitions[i]);
        i += 1;
    }
    proof {
        assert forall|a: int, b: int|
            twin_transitions_at(d.transitions@, a, b) == twin_transitions_at(
                device.transitions@,
                a,
                b,
            ) by {
            if 0 <= a < b < d.transitions@.len() {
                assert(filled_transition(device.transitions@[a], d.transitions@[a]));
                assert(filled_transition(device.transitions@[b], d.transitions@[b]));
            }
        }
        assert(twin_transitions(d.transitions@) == twin_transitions(device.transitions@));
        assert forall|k: int| first_stray_control(d, k) == first_stray_control(device, k) by {}
    }
    match validate_config(&d) {
        Ok(()) => Ok(d),
        Err(e) => Err(e),
    }
}

} // verus!
