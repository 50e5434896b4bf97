use boop_pty::detector::{SessionState, STATE_DEBOUNCE_NANOS};
use boop_pty::error::BoopError;
use boop_pty::ipc::client::SendOutcome;
use boop_pty::ipc::{IpcClient, Message};
use boop_pty::pty::handler::{LoopStep, ReadOutcome};
use boop_pty::pty::PtyHandler;

fn handler() -> PtyHandler {
    PtyHandler::new(
        "abc123".to_string(),
        "codex".to_string(),
        "my-project".to_string(),
        IpcClient::with_path("/nonexistent/boop/sock".to_string()),
    )
}

fn line(message: Option<Message>) -> Option<String> {
    message.map(|m| m.serialize())
}

#[test]
fn missing_endpoint_is_no_error() {
    assert!(IpcClient::conclude(SendOutcome::NotFound).is_ok());
    assert!(IpcClient::conclude(SendOutcome::ConnectionRefused).is_ok());
    assert!(IpcClient::conclude(SendOutcome::Sent).is_ok());
}

#[test]
fn other_transport_failures_are_reported() {
    match IpcClient::conclude(SendOutcome::ConnectFailed("permission denied".to_string())) {
        Err(BoopError::Ipc(detail)) => {
            assert_eq!(detail, "Failed to connect to socket: permission denied")
        }
        other => panic!("unexpected: {:?}", other),
    }
    match IpcClient::conclude(SendOutcome::WriteFailed("broken pipe".to_string())) {
        Err(BoopError::Ipc(detail)) => assert_eq!(detail, "Failed to send message: broken pipe"),
        other => panic!("unexpected: {:?}", other),
    }
    match IpcClient::conclude(SendOutcome::TimeoutRefused("invalid argument".to_string())) {
        Err(BoopError::Ipc(detail)) => {
            assert_eq!(detail, "Failed to set write timeout: invalid argument")
        }
        other => panic!("unexpected: {:?}", other),
    }
}

#[test]
fn endpoint_lies_below_the_home_directory() {
    assert_eq!(IpcClient::for_home(Some("/home/u")).socket_path(), "/home/u/.boop/sock");
    assert_eq!(IpcClient::for_home(Some("/home/u/")).socket_path(), "/home/u/.boop/sock");
    assert_eq!(IpcClient::for_home(Some("/")).socket_path(), "/.boop/sock");
    assert_eq!(IpcClient::for_home(Some("")).socket_path(), ".boop/sock");
    assert_eq!(IpcClient::for_home(None).socket_path(), "/tmp/.boop/sock");
    assert_eq!(IpcClient::with_path("/run/x.sock".to_string()).socket_path(), "/run/x.sock");
}

#[test]
fn endpoint_path_agrees_with_path_joining() {
    for home in ["/home/u", "/home/u/", "/", "", "relative/dir", "/a//"] {
        let expected = std::path::PathBuf::from(home).join(".boop").join("sock");
        assert_eq!(
            std::path::Path::new(IpcClient::for_home(Some(home)).socket_path()),
            expected.as_path()
        );
        assert_eq!(
            IpcClient::for_home(Some(home)).socket_path(),
            expected.to_str().unwrap()
        );
    }
}

#[test]
fn errors_render_with_their_prefix() {
    assert_eq!(BoopError::Pty("no pty".to_string()).message(), "PTY error: no pty");
    assert_eq!(BoopError::Io("closed".to_string()).message(), "IO error: closed");
    assert_eq!(BoopError::Ipc("refused".to_string()).message(), "IPC error: refused");
    assert_eq!(
        BoopError::InvalidArgs("Missing required arguments".to_string()).message(),
        "Invalid arguments: Missing required arguments"
    );
    assert_eq!(BoopError::Signal("x".to_string()).message(), "Signal error: x");
}

#[test]
fn session_opens_with_start_and_working() {
    let handler = handler();
    assert_eq!(
        handler.start_message(4321).serialize(),
        "{\"type\":\"START\",\"session_id\":\"abc123\",\"tool\":\"codex\",\"project_name\":\"my-project\",\"pid\":4321}\n"
    );
    assert_eq!(
        handler.initial_state_message().serialize(),
        "{\"type\":\"STATE\",\"session_id\":\"abc123\",\"state\":\"WORKING\",\"details\":\"Starting...\"}\n"
    );
    assert_eq!(
        handler.end_message(3).serialize(),
        "{\"type\":\"END\",\"session_id\":\"abc123\",\"exit_code\":3}\n"
    );
    assert_eq!(handler.tool(), "codex");
    assert_eq!(handler.ipc().socket_path(), "/nonexistent/boop/sock");
    assert_eq!(handler.last_reported(), SessionState::Working);
    assert_eq!(handler.current_state(), SessionState::Working);
}

#[test]
fn committed_change_is_reported_once() {
    let mut handler = handler();
    assert!(handler.on_output_at(b"Allow this action? [Y/n]\n", 0).is_none());
    let event = handler.on_output_at(b"Allow this action? [Y/n]\n", STATE_DEBOUNCE_NANOS + 2_000_000_000);
    assert_eq!(
        line(event),
        Some(
            "{\"type\":\"STATE\",\"session_id\":\"abc123\",\"state\":\"AWAITING_APPROVAL\",\"details\":\"Allow this action? [Y/n]\",\"working_duration_secs\":2}\n"
                .to_string()
        )
    );
    assert_eq!(handler.last_reported(), SessionState::AwaitingApproval);
    assert!(handler
        .on_output_at(b"Allow this action? [Y/n]\n", 2 * STATE_DEBOUNCE_NANOS + 2_000_000_000)
        .is_none());
    assert_eq!(handler.last_reported(), SessionState::AwaitingApproval);
}

#[test]
fn change_between_waiting_states_carries_no_duration() {
    let mut handler = handler();
    handler.on_output_at(b"Error: x\n", 0);
    assert!(handler.on_output_at(b"", 1_000_000_000).is_some());
    // the failure has expired; a prompt is all that is visible now
    assert!(handler.on_output_at(b">\n", 4_000_000_000).is_none());
    let event = handler.on_output_at(b"", 5_000_000_000);
    assert_eq!(
        line(event),
        Some(
            "{\"type\":\"STATE\",\"session_id\":\"abc123\",\"state\":\"IDLE\",\"details\":\">\"}\n"
                .to_string()
        )
    );
}

#[test]
fn output_on_the_clock_reports_nothing_at_first() {
    let mut handler = handler();
    assert!(handler.on_output(b"plain output\n").is_none());
    assert!(handler.on_output(b"Task completed\n").is_none());
    assert_eq!(handler.current_state(), SessionState::Working);
}

#[test]
fn reads_decide_the_next_step() {
    assert_eq!(PtyHandler::after_read(ReadOutcome::Data), LoopStep::Forward);
    assert_eq!(PtyHandler::after_read(ReadOutcome::WouldBlock), LoopStep::Retry);
    assert_eq!(PtyHandler::after_read(ReadOutcome::Eof), LoopStep::Stop);
    assert_eq!(PtyHandler::after_read(ReadOutcome::Failed), LoopStep::Stop);
}

#[test]
fn exit_status_maps_to_exit_code() {
    assert_eq!(PtyHandler::exit_code(0), 0);
    assert_eq!(PtyHandler::exit_code(1), 1);
    assert_eq!(PtyHandler::exit_code(255), 255);
    assert_eq!(PtyHandler::exit_code(i32::MAX as u32), i32::MAX);
    assert_eq!(PtyHandler::exit_code(i32::MAX as u32 + 1), -1);
    assert_eq!(PtyHandler::exit_code(u32::MAX), -1);
}

#[test]
fn unknown_terminal_gets_defaults() {
    assert_eq!(PtyHandler::initial_size(None), (80, 24));
    assert_eq!(PtyHandler::initial_size(Some((132, 43))), (132, 43));
    assert_eq!(PtyHandler::terminal_type(None), "xterm-256color");
    assert_eq!(PtyHandler::terminal_type(Some("screen".to_string())), "screen");
    assert_eq!(PtyHandler::terminal_type(Some(String::new())), "");
}

#[test]
fn project_name_comes_from_the_first_source_that_has_one() {
    let name = boop_pty::project::project_name;
    assert_eq!(
        name(Some("mine".to_string()), Some("/src/repo\n".to_string()), Some("dir".to_string())),
        "mine"
    );
    assert_eq!(name(Some(String::new()), Some("/src/repo\n".to_string()), None), "");
    assert_eq!(name(None, Some("/src/repo\n".to_string()), Some("dir".to_string())), "repo");
    assert_eq!(name(None, None, Some("dir".to_string())), "dir");
    assert_eq!(name(None, None, None), "unknown");
}

#[test]
fn repository_name_is_the_last_component_of_its_root() {
    let last = boop_pty::project::trimmed_last_component;
    assert_eq!(last("/home/u/src/boop\n"), "boop");
    assert_eq!(last("  /home/u/my project \t\r\n"), "my project");
    assert_eq!(last("plain"), "plain");
    assert_eq!(last("/trailing/"), "");
    assert_eq!(last("/"), "");
    assert_eq!(last(""), "");
    assert_eq!(last(" \n "), "");
    assert_eq!(last("/a/b c/\u{e9}t\u{e9}\u{a0}"), "\u{e9}t\u{e9}");
    for text in ["/home/u/src/boop\n", " a/b /c ", "", "/", "x", "\n/x/y//\n", "a b"] {
        assert_eq!(last(text), text.trim().split('/').last().unwrap());
    }
}
