use launchdock::daemon::{
    not_running_outcome, parse_pid, reply_outcome, start_decision, DaemonState, Message, Step,
    UiPoll,
};
use launchdock::ipc::{decode_response, encode_response, Command, Decoded, Response, ResponseType};

#[test]
fn command_bytes_round_trip() {
    for c in [Command::Stop, Command::Show, Command::Status] {
        assert_eq!(Command::from_byte(c.to_byte()), Some(c));
    }
    assert_eq!(Command::Stop.to_byte(), 0x01);
    assert_eq!(Command::Show.to_byte(), 0x02);
    assert_eq!(Command::Status.to_byte(), 0x03);
    assert_eq!(Command::from_byte(0x00), None);
    assert_eq!(Command::from_byte(0x04), None);
    assert_eq!(Command::from_byte(0x80), None);
}

#[test]
fn response_type_tags() {
    assert_eq!(ResponseType::Success.tag(), 0x80);
    assert_eq!(ResponseType::Status.tag(), 0x81);
    assert_eq!(ResponseType::Error.tag(), 0x82);
}

#[test]
fn ok_response_frame() {
    let bytes = encode_response(&Response::Success("UI launched".to_string())).unwrap();
    let mut expected = vec![0x80, 0x00, 11];
    expected.extend_from_slice(b"UI launched");
    assert_eq!(bytes, expected);
    match decode_response(&bytes) {
        Decoded::Complete(Response::Success(m), n) => {
            assert_eq!(m, "UI launched");
            assert_eq!(n, 14);
        }
        _ => panic!("expected a whole ok response"),
    }
}

#[test]
fn status_response_flags() {
    let bytes = encode_response(&Response::Status { daemon_running: true, ui_visible: true }).unwrap();
    assert_eq!(bytes, vec![0x81, 0x03]);
    let bytes = encode_response(&Response::Status { daemon_running: true, ui_visible: false }).unwrap();
    assert_eq!(bytes, vec![0x81, 0x01]);
    match decode_response(&[0x81, 0x02]) {
        Decoded::Complete(Response::Status { daemon_running, ui_visible }, 2) => {
            assert!(!daemon_running);
            assert!(ui_visible);
        }
        _ => panic!("expected a status response"),
    }
}

#[test]
fn error_response_with_multibyte_text() {
    let text = "échec ✗";
    let bytes = encode_response(&Response::Error(text.to_string())).unwrap();
    assert_eq!(bytes[0], 0x82);
    assert_eq!(((bytes[1] as usize) << 8) | bytes[2] as usize, text.len());
    match decode_response(&bytes) {
        Decoded::Complete(Response::Error(m), n) => {
            assert_eq!(m, text);
            assert_eq!(n, bytes.len());
        }
        _ => panic!("expected an error response"),
    }
}

#[test]
fn partial_frames_ask_for_more() {
    assert!(matches!(decode_response(&[]), Decoded::Incomplete(1)));
    assert!(matches!(decode_response(&[0x81]), Decoded::Incomplete(1)));
    assert!(matches!(decode_response(&[0x80, 0x00]), Decoded::Incomplete(1)));
    assert!(matches!(decode_response(&[0x80, 0x00, 0x05, b'a']), Decoded::Incomplete(4)));
    assert!(matches!(decode_response(&[0x80, 0x01, 0x00]), Decoded::Incomplete(256)));
    assert!(matches!(decode_response(&[0x7f]), Decoded::Invalid));
    assert!(matches!(decode_response(&[0x01, 0x00]), Decoded::Invalid));
}

#[test]
fn invalid_utf8_payload_is_replaced() {
    match decode_response(&[0x80, 0x00, 0x03, b'a', 0xff, b'b']) {
        Decoded::Complete(Response::Success(m), 6) => assert_eq!(m, "a\u{fffd}b"),
        _ => panic!("expected an ok response"),
    }
}

#[test]
fn oversized_text_has_no_frame() {
    let long = "x".repeat(65536);
    assert!(encode_response(&Response::Success(long)).is_none());
    let fits = "y".repeat(65535);
    let bytes = encode_response(&Response::Error(fits)).unwrap();
    assert_eq!(&bytes[..3], &[0x82, 0xff, 0xff]);
}

fn reply_text(step: Step<u32>) -> Option<String> {
    match step {
        Step::Reply(Response::Success(m)) => Some(m),
        _ => None,
    }
}

#[test]
fn show_twice_spawns_once() {
    let mut state: DaemonState<u32> = DaemonState::new();
    assert!(matches!(state.update(Message::ShowUI), Step::LaunchUi));
    match state.ui_launched(42) {
        Response::Success(m) => assert_eq!(m, "UI launched"),
        _ => panic!("expected ok"),
    }
    assert!(state.ui_visible);
    assert_eq!(reply_text(state.update(Message::ShowUI)).as_deref(), Some("UI already visible"));
    assert_eq!(reply_text(state.update(Message::ShowUI)).as_deref(), Some("UI already visible"));
    assert_eq!(state.ui_process, Some(42));
}

#[test]
fn window_exit_allows_a_new_window() {
    let mut state: DaemonState<u32> = DaemonState::new();
    state.ui_launched(7);
    state.poll_ui_status(UiPoll::Running);
    assert!(state.ui_visible);
    state.poll_ui_status(UiPoll::Exited);
    assert!(!state.ui_visible);
    assert_eq!(state.ui_process, None);
    assert!(matches!(state.update(Message::ShowUI), Step::LaunchUi));
    state.ui_launched(8);
    state.poll_ui_status(UiPoll::Failed);
    assert!(!state.ui_visible);
}

#[test]
fn status_and_shutdown() {
    let mut state: DaemonState<u32> = DaemonState::new();
    state.ui_launched(3);
    match state.update(Message::CheckStatus) {
        Step::Reply(Response::Status { daemon_running, ui_visible }) => {
            assert!(daemon_running);
            assert!(ui_visible);
        }
        _ => panic!("expected status"),
    }
    match state.update(Message::Shutdown) {
        Step::Stop(child, Response::Success(m)) => {
            assert_eq!(child, Some(3));
            assert_eq!(m, "Daemon stopping");
        }
        _ => panic!("expected stop"),
    }
    assert!(!state.ui_visible);
    assert_eq!(state.ui_process, None);
}

#[test]
fn failed_spawn_is_reported() {
    let state: DaemonState<u32> = DaemonState::new();
    match state.ui_launch_failed("no such file") {
        Response::Error(m) => assert_eq!(m, "Failed to launch UI: no such file"),
        _ => panic!("expected error"),
    }
}

#[test]
fn request_bytes_drive_the_daemon() {
    let mut state: DaemonState<u32> = DaemonState::new();
    let (step, exit) = state.handle_request(0x09);
    assert!(!exit);
    match step {
        Step::Reply(Response::Error(m)) => assert_eq!(m, "Unknown command"),
        _ => panic!("expected error"),
    }
    let (step, exit) = state.handle_request(0x02);
    assert!(!exit);
    assert!(matches!(step, Step::LaunchUi));
    let (step, exit) = state.handle_request(0x01);
    assert!(exit);
    assert!(matches!(step, Step::Stop(None, _)));
}

#[test]
fn pid_files() {
    assert_eq!(parse_pid("1234\n"), Some(1234));
    assert_eq!(parse_pid("  +77 \t"), Some(77));
    assert_eq!(parse_pid("-5"), Some(-5));
    assert_eq!(parse_pid("2147483647"), Some(i32::MAX));
    assert_eq!(parse_pid("-2147483648"), Some(i32::MIN));
    assert_eq!(parse_pid("2147483648"), None);
    assert_eq!(parse_pid(""), None);
    assert_eq!(parse_pid("12a"), None);
    assert_eq!(parse_pid("-"), None);
    assert_eq!(parse_pid("1 2"), None);
}

#[test]
fn stale_pid_file_lets_start_proceed() {
    let pid = parse_pid("999999\n");
    assert_eq!(pid, Some(999999));
    assert!(start_decision(pid, false).is_ok());
    assert!(start_decision(None, false).is_ok());
    assert_eq!(start_decision(pid, true), Err("Daemon is already running".to_string()));
}

#[test]
fn client_outcomes() {
    assert_eq!(not_running_outcome(Command::Stop), Err("Daemon is not running".to_string()));
    assert_eq!(not_running_outcome(Command::Show), Err("Daemon is not running".to_string()));
    assert_eq!(
        not_running_outcome(Command::Status),
        Ok("Daemon: not running\nUI: not visible".to_string())
    );
    assert_eq!(
        reply_outcome(Command::Status, Ok(Response::Status { daemon_running: true, ui_visible: false })),
        Ok("Daemon: running\nUI: not visible".to_string())
    );
    assert_eq!(
        reply_outcome(Command::Status, Ok(Response::Success("x".to_string()))),
        Err("Invalid response from daemon".to_string())
    );
    assert_eq!(
        reply_outcome(Command::Stop, Ok(Response::Success("Daemon stopping".to_string()))),
        Ok("Daemon stopping".to_string())
    );
    assert_eq!(
        reply_outcome(Command::Show, Ok(Response::Error("boom".to_string()))),
        Err("boom".to_string())
    );
    assert_eq!(
        reply_outcome(Command::Show, Ok(Response::Status { daemon_running: true, ui_visible: true })),
        Err("Invalid response from daemon".to_string())
    );
    assert_eq!(
        reply_outcome(Command::Stop, Err("connection refused".to_string())),
        Err("Failed to communicate with daemon: connection refused".to_string())
    );
}
