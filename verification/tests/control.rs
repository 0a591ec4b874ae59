use lib_setup::message::Message;
use lib_setup::server::{capture_due, command_action, process_messages, ControlAction, Server};

fn batch(words: &[&str]) -> Vec<Message> {
    words.iter().map(|w| Message::new(w)).collect()
}

#[test]
fn server_new_keeps_address() {
    let s = Server::new("0.0.0.0".to_string(), 8080);
    assert_eq!(s.host, "0.0.0.0");
    assert_eq!(s.port, 8080);
}

#[test]
fn commands_map_to_their_actions() {
    assert_eq!(command_action("exit"), ControlAction::CloseConnection);
    assert_eq!(command_action("syslog"), ControlAction::CaptureSnapshot);
    assert_eq!(command_action("list"), ControlAction::ListContainers);
    assert_eq!(command_action("start"), ControlAction::SetRunning);
    assert_eq!(command_action("continue"), ControlAction::SetRunning);
    assert_eq!(command_action("stop"), ControlAction::ClearRunning);
    assert_eq!(command_action("pause"), ControlAction::ClearRunning);
    assert_eq!(command_action("START"), ControlAction::Ignore);
    assert_eq!(command_action("reboot"), ControlAction::Ignore);
}

#[test]
fn stop_gates_capture_until_start_or_continue() {
    // After `stop`, ticks of the capture loop do nothing across any further
    // commands that include no `start`/`continue`.
    let (flag, _) = process_messages(true, &batch(&["stop"]));
    assert!(!capture_due(flag));
    let (flag, _) = process_messages(flag, &batch(&["syslog", "list", "unknown", "pause"]));
    assert!(!capture_due(flag));
    let (flag, _) = process_messages(flag, &batch(&["continue"]));
    assert!(capture_due(flag));
    let (flag, _) = process_messages(flag, &batch(&["stop", "start"]));
    assert!(capture_due(flag));
}

#[test]
fn exit_cuts_the_batch_short() {
    let (flag, actions) = process_messages(true, &batch(&["stop", "exit", "start"]));
    assert!(!flag, "the start after exit must not be processed");
    assert_eq!(
        actions,
        vec![ControlAction::ClearRunning, ControlAction::CloseConnection]
    );
}

#[test]
fn unrecognized_commands_are_ignored_not_errors() {
    let (flag, actions) = process_messages(true, &batch(&["frobnicate"]));
    assert!(flag);
    assert_eq!(actions, vec![ControlAction::Ignore]);
}

#[test]
fn batch_processes_in_arrival_order() {
    let (flag, actions) = process_messages(false, &batch(&["start", "stop", "start"]));
    assert!(flag);
    assert_eq!(
        actions,
        vec![
            ControlAction::SetRunning,
            ControlAction::ClearRunning,
            ControlAction::SetRunning
        ]
    );
}
