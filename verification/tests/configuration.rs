use fbug::config::{
    load_config, validate_config, ButtonControl, ConfigError, ConnectionInfo, Control,
    ControlAction, ControlType, Device, SerialConfig, SshConnection, TransitionTrigger,
    TransitionTriggerSequence, UsbConnection, _default_baud, _default_lines, _default_ssh_label,
    _default_uart_label, _default_usb_label,
};
use fbug::state::{State, Transition};

fn serial(label: &str) -> ConnectionInfo {
    ConnectionInfo::Serial(SerialConfig {
        label: label.to_string(),
        getty: false,
        path: "/dev/ttyUSB0".to_string(),
        baud: _default_baud(),
        lines: _default_lines(),
    })
}

fn control(name: &str, connection: &str) -> Control {
    Control {
        name: name.to_string(),
        connection: connection.to_string(),
        control_type: ControlType::Button(ButtonControl { action: "dtr".to_string() }),
    }
}

fn trigger(name: &str, from: &[&str]) -> TransitionTrigger {
    TransitionTrigger {
        to: String::new(),
        from: from.iter().map(|s| s.to_string()).collect(),
        name: name.to_string(),
        description: None,
        sequence: vec![TransitionTriggerSequence {
            control: "power".to_string(),
            action: ControlAction::Press,
            duration: Some(100),
        }],
        timeout: None,
    }
}

fn transition(from: &[&str], to: &str, triggers: Vec<TransitionTrigger>) -> Transition {
    Transition::new(
        to.to_string(),
        from.iter().map(|s| s.to_string()).collect(),
        vec![],
        triggers,
    )
}

fn device(names: &[&str], transitions: Vec<Transition>, controls: Vec<Control>) -> Device {
    Device {
        name: "Board".to_string(),
        codename: "board".to_string(),
        description: None,
        username: None,
        password: None,
        resting_state: None,
        connections: vec![
            serial("UART"),
            ConnectionInfo::Usb(UsbConnection { label: "USB".to_string(), port: "1-1".to_string() }),
            ConnectionInfo::Ssh(SshConnection {
                label: "SSH".to_string(),
                host: "board.local".to_string(),
                port: 22,
            }),
        ],
        controls,
        states: names.iter().map(|n| State::new(n.to_string(), vec![])).collect(),
        transitions,
    }
}

#[test]
fn defaults() {
    assert_eq!(_default_baud(), 115200);
    assert!(_default_lines());
    assert_eq!(_default_uart_label(), "UART");
    assert_eq!(_default_usb_label(), "USB");
    assert_eq!(_default_ssh_label(), "SSH");
}

#[test]
fn sound_description_is_accepted() {
    let d = device(
        &["Boot", "Ready"],
        vec![transition(&["Boot"], "Ready", vec![]), transition(&["Ready"], "Boot", vec![])],
        vec![control("power", "UART"), control("reset", "SSH"), control("mode", "USB")],
    );
    assert_eq!(validate_config(&d), Ok(()));
}

#[test]
fn neighbouring_states_of_one_name_are_refused() {
    let d = device(&["Boot", "Ready", "Ready"], vec![], vec![]);
    assert_eq!(validate_config(&d), Err(ConfigError::DuplicateState));
}

#[test]
fn states_of_one_name_apart_are_refused() {
    let d = device(&["Ready", "Boot", "Ready"], vec![], vec![]);
    assert_eq!(validate_config(&d), Err(ConfigError::DuplicateState));
    let d = device(&["A", "B", "C", "D", "B"], vec![], vec![]);
    assert_eq!(validate_config(&d), Err(ConfigError::DuplicateState));
    let d = device(&["A", "B", "C", "D"], vec![], vec![]);
    assert_eq!(validate_config(&d), Ok(()));
}

#[test]
fn transitions_of_one_route_apart_are_refused() {
    let d = device(
        &["Boot", "Ready"],
        vec![
            transition(&["Boot"], "Ready", vec![]),
            transition(&["Ready"], "Boot", vec![]),
            transition(&["Boot"], "Ready", vec![trigger("again", &[])]),
        ],
        vec![],
    );
    assert_eq!(validate_config(&d), Err(ConfigError::DuplicateTransition));
    assert_eq!(load_config(d).err(), Some(ConfigError::DuplicateTransition));
}

#[test]
fn neighbouring_transitions_of_one_route_are_refused() {
    let d = device(
        &["Boot", "Ready"],
        vec![
            transition(&["Boot"], "Ready", vec![]),
            transition(&["Ready"], "Boot", vec![]),
            transition(&["Ready"], "Boot", vec![trigger("again", &[])]),
        ],
        vec![],
    );
    assert_eq!(validate_config(&d), Err(ConfigError::DuplicateTransition));
}

#[test]
fn transitions_that_differ_in_one_source_pass() {
    let d = device(
        &["Boot", "Ready"],
        vec![
            transition(&["Boot", "Ready"], "Boot", vec![]),
            transition(&["Boot"], "Boot", vec![]),
            transition(&[], "Boot", vec![]),
            transition(&["Boot"], "Ready", vec![]),
            transition(&["Ready", "Boot"], "Boot", vec![]),
            transition(&["Boot", "Boot"], "Boot", vec![]),
        ],
        vec![],
    );
    assert_eq!(validate_config(&d), Ok(()));
}

#[test]
fn duplicate_states_are_reported_first() {
    let d = device(
        &["Boot", "Boot"],
        vec![transition(&["Boot"], "Boot", vec![]), transition(&["Boot"], "Boot", vec![])],
        vec![control("power", "nowhere")],
    );
    assert_eq!(validate_config(&d), Err(ConfigError::DuplicateState));
}

#[test]
fn control_on_an_unknown_connection_is_refused() {
    let d = device(
        &["Boot"],
        vec![],
        vec![control("power", "UART"), control("reset", "JTAG"), control("mode", "GPIO")],
    );
    assert_eq!(
        validate_config(&d),
        Err(ConfigError::UnknownConnection {
            control: "reset".to_string(),
            connection: "JTAG".to_string()
        })
    );
}

#[test]
fn loading_fills_in_the_triggers() {
    let d = device(
        &["Boot", "Ready", "Off"],
        vec![
            transition(
                &["Boot", "Ready"],
                "Off",
                vec![trigger("hold", &[]), trigger("tap", &["Ready"])],
            ),
            transition(&[], "Boot", vec![trigger("plug", &[])]),
        ],
        vec![control("power", "UART")],
    );
    let loaded = load_config(d.clone()).unwrap();
    let first = &loaded.transitions[0].triggers;
    assert_eq!(first[0].to, "Off");
    assert_eq!(first[0].from, vec!["Boot".to_string(), "Ready".to_string()]);
    assert_eq!(first[0].name, "hold");
    assert_eq!(first[1].to, "Off");
    assert_eq!(first[1].from, vec!["Ready".to_string()]);
    let second = &loaded.transitions[1].triggers;
    assert_eq!(second[0].to, "Boot");
    assert_eq!(second[0].from, Vec::<String>::new());
    assert_eq!(second[0].sequence, d.transitions[1].triggers[0].sequence);
    assert_eq!(loaded.transitions[0].from, d.transitions[0].from);
    assert_eq!(loaded.transitions[0].to, d.transitions[0].to);
    assert_eq!(loaded.connections, d.connections);
    assert_eq!(loaded.controls, d.controls);
    assert_eq!(loaded.name, d.name);
}

#[test]
fn loading_refuses_what_the_checks_refuse() {
    let d = device(&["Boot", "Boot"], vec![], vec![]);
    assert_eq!(load_config(d).err(), Some(ConfigError::DuplicateState));
    let d = device(&["Boot"], vec![], vec![control("power", "JTAG")]);
    assert_eq!(
        load_config(d).err(),
        Some(ConfigError::UnknownConnection {
            control: "power".to_string(),
            connection: "JTAG".to_string()
        })
    );
}
