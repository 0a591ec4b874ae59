use lib_setup::central_state::{select_log_files, server_name_from_path, sort_paths, CentralState};
use lib_setup::errors::TransferError;

#[test]
fn empty_message_is_rejected_and_changes_nothing() {
    let mut state = CentralState::new();
    let r = state.append_log("");
    assert_eq!(r.unwrap_err(), TransferError::InvalidInput);
    assert!(state.logs.is_empty());
}

#[test]
fn nonempty_message_is_recorded_once() {
    let mut state = CentralState::new();
    state.append_log("hi").unwrap();
    assert_eq!(state.logs, vec!["HTTP: hi".to_string()]);
    assert!(state.servers.is_empty());
    state.append_log("again").unwrap();
    assert_eq!(state.logs, vec!["HTTP: hi".to_string(), "HTTP: again".to_string()]);
}

#[test]
fn record_server_deduplicates() {
    let mut state = CentralState::new();
    assert!(!state.record_server("edge-1"));
    assert!(!state.record_server("edge-2"));
    assert!(state.record_server("edge-1"));
    assert_eq!(state.servers, vec!["edge-1".to_string(), "edge-2".to_string()]);
}

#[test]
fn only_log_files_are_listed() {
    let paths = vec![
        "Logs/2025/7/5/a||1.log".to_string(),
        "Logs/servers.json".to_string(),
        "Logs/2025/7/5/b||2.log".to_string(),
        "Logs/readme".to_string(),
    ];
    assert_eq!(
        select_log_files(&paths),
        vec![
            "Logs/2025/7/5/a||1.log".to_string(),
            "Logs/2025/7/5/b||2.log".to_string()
        ]
    );
}

#[test]
fn server_name_is_the_segment_before_the_separator() {
    assert_eq!(
        server_name_from_path("Logs/2025/7/5/edge-3||07:04:58.log"),
        "edge-3"
    );
    assert_eq!(server_name_from_path("edge-9||x.log"), "edge-9");
    assert_eq!(server_name_from_path("plain.log"), "plain.log");
}

#[test]
fn sorting_orders_paths_and_keeps_them_all() {
    let paths = vec![
        "Logs/2025/9/1/b.log".to_string(),
        "Logs/2025/10/1/a.log".to_string(),
        "Logs/2024/1/1/c.log".to_string(),
        "Logs/2024/1/1/c.log".to_string(),
    ];
    let sorted = sort_paths(paths);
    assert_eq!(
        sorted,
        vec![
            "Logs/2024/1/1/c.log".to_string(),
            "Logs/2024/1/1/c.log".to_string(),
            "Logs/2025/10/1/a.log".to_string(),
            "Logs/2025/9/1/b.log".to_string()
        ]
    );
}
