use localhost::log::{log_with_file_line, rotated_name, LogFileType};
use localhost::server::state::{Connection, Handled, Readiness, ServerState, INITIAL_TOKEN_ID};

#[test]
fn test_log_with_file_line() {
    assert_eq!(log_with_file_line("", "".to_string(), "", 10), None);
}

#[test]
fn log_lines_carry_time_and_place() {
    assert_eq!(
        log_with_file_line("01/02/24 10:11:12", "Error: x".to_string(), "src/a.rs", 7).as_deref(),
        Some("[01/02/24 10:11:12][src/a.rs:7] Error: x\n")
    );
}

#[test]
fn log_files_are_kept_by_kind() {
    assert_eq!(LogFileType::Server.file_path(), "./src/log/log_files/server.log");
    assert_eq!(LogFileType::Client.file_path(), "./src/log/log_files/client.log");
    assert_eq!(
        rotated_name("./src/log/log_files/server.log", "2024-01-02-10:11:12"),
        "./src/log/log_files/server-2024-01-02-10:11:12.log"
    );
    assert_eq!(rotated_name("a.log.log", "t"), "a-t.log");
    assert_eq!(rotated_name("plain", "t"), "plain-t.log");
}

#[test]
fn listeners_take_the_first_tokens() {
    let state = ServerState::init(&vec![3, 0, 2]).unwrap();
    assert_eq!(state.listeners, vec![0, 0, 0, 2, 2]);
    assert_eq!(state.token_id, 5);
    assert!(state.connections.is_empty());
    assert_eq!(state.on_event(INITIAL_TOKEN_ID), Readiness::Accept(0));
    assert_eq!(state.on_event(4), Readiness::Accept(2));
    assert_eq!(state.on_event(5), Readiness::Ignore);
}

#[test]
fn connections_get_fresh_tokens() {
    let mut state = ServerState::init(&vec![1, 1]).unwrap();
    assert_eq!(state.accept_connection(1, 100), Some(2));
    assert_eq!(state.accept_connection(0, 110), Some(3));
    assert_eq!(state.accept_connection(2, 120), None);
    assert_eq!(state.on_event(2), Readiness::Handle(1));
    assert_eq!(state.on_event(3), Readiness::Handle(0));

    assert!(state.handle_existing_connection(2, Handled::Done));
    assert_eq!(state.on_event(2), Readiness::Ignore);
    assert_eq!(state.accept_connection(0, 130), Some(4));
    assert_eq!(
        state.connections,
        vec![
            Connection { token: 3, server: 0, last_activity: 110 },
            Connection { token: 4, server: 0, last_activity: 130 },
        ]
    );
}

#[test]
fn a_connection_that_would_block_stays_open() {
    let mut state = ServerState::init(&vec![1]).unwrap();
    let token = state.accept_connection(0, 0).unwrap();
    assert!(!state.handle_existing_connection(token, Handled::WouldBlock));
    assert_eq!(state.on_event(token), Readiness::Handle(0));
    assert!(state.handle_existing_connection(token, Handled::Failed));
    assert!(!state.handle_existing_connection(token, Handled::Done));
    assert!(state.connections.is_empty());
}

#[test]
fn idle_connections_are_swept() {
    let mut state = ServerState::init(&vec![1]).unwrap();
    let old = state.accept_connection(0, 1000).unwrap();
    let edge = state.accept_connection(0, 1500).unwrap();
    let young = state.accept_connection(0, 2400).unwrap();
    assert_eq!(state.handle_timeout(2500), vec![old]);
    assert_eq!(state.handle_timeout(2500), Vec::<usize>::new());
    assert_eq!(state.on_event(edge), Readiness::Handle(0));
    assert_eq!(state.handle_timeout(2501), vec![edge]);
    assert_eq!(state.on_event(young), Readiness::Handle(0));
    assert_eq!(state.token_id, 4);
}

#[test]
fn tokens_run_out_without_being_reused() {
    let mut state = ServerState { listeners: vec![0], token_id: usize::MAX, connections: vec![] };
    assert_eq!(state.accept_connection(0, 0), None);
    assert_eq!(state.token_id, usize::MAX);
}
