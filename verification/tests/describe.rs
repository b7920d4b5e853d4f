use fbug::config::{
    Action, ButtonControl, CommandControl, ConfigError, ConnectionInfo, ControlAction, ControlType,
    GlobalProperties, SerialConfig, SshConnection, TransitionTrigger, TransitionTriggerSequence,
    UsbConnection,
};
use fbug::connections::serial::watch_dirs;
use fbug::connections::ConnectionError;
use fbug::text::{
    append_decimal, is_fit_for_title, join_texts, spaced_text, BRACKET_LIMIT, TITLE_LENGTH_LIMIT,
};

fn step(control: &str, action: ControlAction, duration: Option<u32>) -> TransitionTriggerSequence {
    TransitionTriggerSequence { control: control.to_string(), action, duration }
}

fn trigger(from: &[&str], to: &str, sequence: Vec<TransitionTriggerSequence>) -> TransitionTrigger {
    TransitionTrigger {
        to: to.to_string(),
        from: from.iter().map(|s| s.to_string()).collect(),
        name: "Reboot".to_string(),
        description: None,
        sequence,
        timeout: None,
    }
}

fn decimal(n: u32) -> String {
    let mut out = String::from("n=");
    append_decimal(&mut out, n);
    out
}

#[test]
fn decimal_digits() {
    assert_eq!(decimal(0), "n=0");
    assert_eq!(decimal(7), "n=7");
    assert_eq!(decimal(10), "n=10");
    assert_eq!(decimal(115200), "n=115200");
    assert_eq!(decimal(4294967295), "n=4294967295");
}

#[test]
fn underscores_become_spaces() {
    assert_eq!(spaced_text("power_button"), "power button");
    assert_eq!(spaced_text("__a_"), "  a ");
    assert_eq!(spaced_text(""), "");
    assert_eq!(spaced_text("vol-up"), "vol-up");
}

#[test]
fn texts_are_joined() {
    assert_eq!(join_texts(&vec![], ", "), "");
    assert_eq!(join_texts(&vec!["Boot".to_string()], ", "), "Boot");
    assert_eq!(
        join_texts(&vec!["Boot".to_string(), "Ready".to_string(), "Off".to_string()], ", "),
        "Boot, Ready, Off"
    );
}

#[test]
fn names_of_the_actions() {
    assert_eq!(ControlAction::Press.to_string(), "Press");
    assert_eq!(ControlAction::Release.to_string(), "Release");
    assert_eq!(ControlAction::Hold.to_string(), "Hold");
}

#[test]
fn step_with_duration() {
    let s = step("power_button", ControlAction::Press, Some(500));
    assert_eq!(s.to_string(), "\t* Press Power Button for 500ms");
}

#[test]
fn step_without_duration() {
    let s = step("volume_up", ControlAction::Hold, None);
    assert_eq!(s.to_string(), "\t* Hold Volume Up ");
}

#[test]
fn step_name_in_title_case() {
    let s = step("switch_to_the_loader", ControlAction::Release, Some(0));
    assert_eq!(s.to_string(), "\t* Release Switch to the Loader for 0ms");
}

#[test]
fn trigger_without_steps_is_its_heading() {
    let mut t = trigger(&["Boot"], "Off", vec![]);
    assert_eq!(t.to_string(), "Reboot");
    t.description = Some("Pull The Plug".to_string());
    assert_eq!(t.to_string(), "Reboot: pull the plug");
    t.timeout = Some(30);
    assert_eq!(t.to_string(), "Reboot: pull the plugtimeout: 30");
    t.description = None;
    assert_eq!(t.to_string(), "Reboottimeout: 30");
}

#[test]
fn trigger_with_timed_steps() {
    let mut t = trigger(
        &["Boot", "Ready"],
        "Off",
        vec![
            step("power_button", ControlAction::Press, None),
            step("power_button", ControlAction::Hold, Some(3000)),
            step("power_button", ControlAction::Release, None),
        ],
    );
    t.description = Some("Long Press".to_string());
    assert_eq!(
        t.to_string(),
        "Reboot: long press from Boot, Ready\n\t* Press Power Button \n\t* Hold Power Button for 3000ms\n\t* Release Power Button \n"
    );
}

#[test]
fn trigger_with_untimed_steps() {
    let t = trigger(&["Boot"], "Off", vec![step("reset", ControlAction::Press, None)]);
    assert_eq!(
        t.to_string(),
        "Reboot from Boot\n\t* Press Reset \n\t* Until device enters state Off\n"
    );
}

#[test]
fn trigger_from_any_state() {
    let t = trigger(&[], "Off", vec![step("reset", ControlAction::Press, Some(10))]);
    assert_eq!(t.to_string(), "Reboot from any state\n\t* Press Reset for 10ms\n");
}

#[test]
fn connection_errors_in_words() {
    assert_eq!(ConnectionError::NoSuchDevice.to_string(), "No such device");
    assert_eq!(ConnectionError::OpenFailed.to_string(), "Failed to open device");
    assert_eq!(ConnectionError::Other("busy".to_string()).to_string(), "Other error: busy");
}

#[test]
fn configuration_errors_in_words() {
    assert_eq!(ConfigError::UnknownState("Off".to_string()).to_string(), "State Off not found");
    assert_eq!(ConfigError::DuplicateState.to_string(), "Duplicate state names found");
    assert_eq!(ConfigError::DuplicateTransition.to_string(), "Duplicate transition names found");
    assert_eq!(
        ConfigError::UnknownConnection {
            control: "reset".to_string(),
            connection: "JTAG".to_string()
        }
        .to_string(),
        "Control reset references non-existent connection JTAG"
    );
    assert_eq!(ConfigError::MalformedPattern("^(".to_string()).to_string(), "Malformed pattern ^(");
}

#[test]
fn names_of_the_kinds() {
    let serial = ConnectionInfo::Serial(SerialConfig {
        label: "UART".to_string(),
        getty: true,
        path: "/dev/ttyS0".to_string(),
        baud: 9600,
        lines: false,
    });
    assert_eq!(serial.to_string(), "Serial");
    let usb = ConnectionInfo::Usb(UsbConnection { label: "USB".to_string(), port: "1".to_string() });
    assert_eq!(usb.to_string(), "Usb");
    let ssh = ConnectionInfo::Ssh(SshConnection {
        label: "SSH".to_string(),
        host: "h".to_string(),
        port: 22,
    });
    assert_eq!(ssh.to_string(), "Ssh");
    assert_eq!(
        ControlType::Button(ButtonControl { action: "dtr".to_string() }).to_string(),
        "Button"
    );
    assert_eq!(
        ControlType::Command(CommandControl {
            command_on: "on".to_string(),
            command_off: "off".to_string()
        })
        .to_string(),
        "Command"
    );
    assert_eq!(Action::Dtr.to_string(), "Dtr");
    assert_eq!(Action::Rts.to_string(), "Rts");
    assert_eq!(Action::Command.to_string(), "Command");
    assert_eq!(GlobalProperties::Baud(9600).to_string(), "Baud");
}

#[test]
fn directories_above_a_device_file() {
    let strings = |v: &[&str]| v.iter().map(|s| s.to_string()).collect::<Vec<String>>();
    assert_eq!(
        watch_dirs("/dev/serial/by-id/usb0"),
        strings(&["/dev/serial/by-id", "/dev/serial", "/dev", "/"])
    );
    assert_eq!(watch_dirs("/dev/ttyUSB0"), strings(&["/dev", "/"]));
    assert_eq!(watch_dirs("/ttyUSB0"), strings(&["/"]));
    assert_eq!(watch_dirs("/"), strings(&[]));
    assert_eq!(watch_dirs(""), strings(&[]));
    assert_eq!(watch_dirs("ttyUSB0"), strings(&[]));
    assert_eq!(watch_dirs("dev/ttyUSB0"), strings(&["dev"]));
    assert_eq!(watch_dirs("/dev/"), strings(&["/dev", "/"]));
}

#[test]
fn opening_brackets_are_counted() {
    assert_eq!(BRACKET_LIMIT, 128);
    assert_eq!(TITLE_LENGTH_LIMIT, 2147483647);
    assert!(is_fit_for_title(""));
    assert!(is_fit_for_title("power (front)"));
    assert!(is_fit_for_title(&"(".repeat(128)));
    assert!(!is_fit_for_title(&"(".repeat(129)));
    assert!(!is_fit_for_title(&"(a) ".repeat(129)));
    assert!(is_fit_for_title(&"a".repeat(5000)));
    assert!(is_fit_for_title(&")".repeat(5000)));
    let long = step(&"long_name_".repeat(100), ControlAction::Press, None);
    assert!(long.to_string().starts_with("\t* Press Long Name Long Name"));
    let nested = step("((reset))", ControlAction::Press, None);
    assert_eq!(nested.to_string(), "\t* Press ((Reset)) ");
    let deep = step(&format!("{}x", "(".repeat(128)), ControlAction::Press, None);
    assert_eq!(deep.to_string(), format!("\t* Press {}X ", "(".repeat(128)));
    let mut t = trigger(&[], "Off", vec![step(&"(".repeat(129), ControlAction::Press, None)]);
    assert!(!t.is_printable());
    t.sequence = vec![step(&"(".repeat(128), ControlAction::Press, None)];
    assert!(t.is_printable());
}
