use gritty::chrome::{
    is_terminal_handshake_err, link_is_stale, next_reconnect_delay, reconnect_err_line,
    reconnect_status_line, spinner_glyph, wall_elapsed, ReconnectPhase, RECONNECT_BACKOFF_INITIAL,
    RECONNECT_BACKOFF_MAX, SPINNER_FRAMES,
};
use gritty::escape::{EscapeAction, EscapeProcessor, EscapeState};

/// Seconds in milliseconds.
fn secs(n: u64) -> u64 {
    n * 1000
}

#[test]
fn normal_passthrough() {
    let mut ep = EscapeProcessor::new();
    // No newlines — after initial AfterNewline, 'h' transitions to Normal
    let actions = ep.process(b"hello");
    assert_eq!(actions, vec![EscapeAction::Data(b"hello".to_vec())]);
}

#[test]
fn tilde_after_newline_detach() {
    let mut ep = EscapeProcessor { state: EscapeState::Normal };
    let actions = ep.process(b"\n~.");
    assert_eq!(actions, vec![EscapeAction::Data(b"\n".to_vec()), EscapeAction::Detach,]);
}

#[test]
fn tilde_after_cr_detach() {
    let mut ep = EscapeProcessor { state: EscapeState::Normal };
    let actions = ep.process(b"\r~.");
    assert_eq!(actions, vec![EscapeAction::Data(b"\r".to_vec()), EscapeAction::Detach,]);
}

#[test]
fn tilde_not_after_newline() {
    let mut ep = EscapeProcessor { state: EscapeState::Normal };
    let actions = ep.process(b"a~.");
    assert_eq!(actions, vec![EscapeAction::Data(b"a~.".to_vec())]);
}

#[test]
fn initial_state_detach() {
    let mut ep = EscapeProcessor::new();
    let actions = ep.process(b"~.");
    assert_eq!(actions, vec![EscapeAction::Detach]);
}

#[test]
fn tilde_suspend() {
    let mut ep = EscapeProcessor { state: EscapeState::Normal };
    let actions = ep.process(b"\n~\x1a");
    assert_eq!(actions, vec![EscapeAction::Data(b"\n".to_vec()), EscapeAction::Suspend,]);
}

#[test]
fn tilde_status() {
    let mut ep = EscapeProcessor { state: EscapeState::Normal };
    let actions = ep.process(b"\n~#");
    assert_eq!(actions, vec![EscapeAction::Data(b"\n".to_vec()), EscapeAction::Status,]);
}

#[test]
fn tilde_reconnect() {
    let mut ep = EscapeProcessor { state: EscapeState::Normal };
    let actions = ep.process(b"\n~R");
    assert_eq!(actions, vec![EscapeAction::Data(b"\n".to_vec()), EscapeAction::Reconnect,]);
}

#[test]
fn escape_pin() {
    let mut ep = EscapeProcessor::new();
    let actions = ep.process(b"\n~K");
    assert_eq!(actions, vec![EscapeAction::Data(b"\n".to_vec()), EscapeAction::Pin]);
}

#[test]
fn tilde_reconnect_stops_processing() {
    let mut ep = EscapeProcessor { state: EscapeState::Normal };
    let actions = ep.process(b"\n~Rremaining");
    assert_eq!(actions, vec![EscapeAction::Data(b"\n".to_vec()), EscapeAction::Reconnect,]);
}

#[test]
fn tilde_help() {
    let mut ep = EscapeProcessor { state: EscapeState::Normal };
    let actions = ep.process(b"\n~?");
    assert_eq!(actions, vec![EscapeAction::Data(b"\n".to_vec()), EscapeAction::Help,]);
}

#[test]
fn double_tilde() {
    let mut ep = EscapeProcessor { state: EscapeState::Normal };
    let actions = ep.process(b"\n~~");
    assert_eq!(
        actions,
        vec![EscapeAction::Data(b"\n".to_vec()), EscapeAction::Data(b"~".to_vec()),]
    );
    assert_eq!(ep.state, EscapeState::Normal);
}

#[test]
fn tilde_unknown_char() {
    let mut ep = EscapeProcessor { state: EscapeState::Normal };
    let actions = ep.process(b"\n~x");
    assert_eq!(
        actions,
        vec![EscapeAction::Data(b"\n".to_vec()), EscapeAction::Data(b"~x".to_vec()),]
    );
}

#[test]
fn split_across_reads() {
    let mut ep = EscapeProcessor { state: EscapeState::Normal };
    let a1 = ep.process(b"\n");
    assert_eq!(a1, vec![EscapeAction::Data(b"\n".to_vec())]);
    let a2 = ep.process(b"~");
    assert_eq!(a2, vec![]); // tilde buffered
    let a3 = ep.process(b".");
    assert_eq!(a3, vec![EscapeAction::Detach]);
}

#[test]
fn split_tilde_then_normal() {
    let mut ep = EscapeProcessor { state: EscapeState::Normal };
    let a1 = ep.process(b"\n");
    assert_eq!(a1, vec![EscapeAction::Data(b"\n".to_vec())]);
    let a2 = ep.process(b"~");
    assert_eq!(a2, vec![]);
    let a3 = ep.process(b"a");
    assert_eq!(a3, vec![EscapeAction::Data(b"~a".to_vec())]);
}

#[test]
fn multiple_escapes_one_buffer() {
    let mut ep = EscapeProcessor { state: EscapeState::Normal };
    let actions = ep.process(b"\n~?\n~.");
    assert_eq!(
        actions,
        vec![
            EscapeAction::Data(b"\n".to_vec()),
            EscapeAction::Help,
            EscapeAction::Data(b"\n".to_vec()),
            EscapeAction::Detach,
        ]
    );
}

#[test]
fn consecutive_newlines() {
    let mut ep = EscapeProcessor { state: EscapeState::Normal };
    let actions = ep.process(b"\n\n\n~.");
    assert_eq!(actions, vec![EscapeAction::Data(b"\n\n\n".to_vec()), EscapeAction::Detach,]);
}

#[test]
fn detach_stops_processing() {
    let mut ep = EscapeProcessor { state: EscapeState::Normal };
    let actions = ep.process(b"\n~.remaining");
    assert_eq!(actions, vec![EscapeAction::Data(b"\n".to_vec()), EscapeAction::Detach,]);
}

#[test]
fn tilde_then_newline() {
    let mut ep = EscapeProcessor { state: EscapeState::Normal };
    let actions = ep.process(b"\n~\n");
    assert_eq!(
        actions,
        vec![EscapeAction::Data(b"\n".to_vec()), EscapeAction::Data(b"~\n".to_vec()),]
    );
    assert_eq!(ep.state, EscapeState::AfterNewline);
}

#[test]
fn empty_input() {
    let mut ep = EscapeProcessor::new();
    let actions = ep.process(b"");
    assert_eq!(actions, vec![]);
}

#[test]
fn only_tilde_buffered() {
    let mut ep = EscapeProcessor { state: EscapeState::Normal };
    let a1 = ep.process(b"\n~");
    assert_eq!(a1, vec![EscapeAction::Data(b"\n".to_vec())]);
    assert_eq!(ep.state, EscapeState::AfterTilde);
    let a2 = ep.process(b".");
    assert_eq!(a2, vec![EscapeAction::Detach]);
}

#[test]
fn reconnect_backoff_starts_at_initial() {
    assert_eq!(next_reconnect_delay(0), RECONNECT_BACKOFF_INITIAL);
}

#[test]
fn reconnect_backoff_doubles_each_step() {
    let d = next_reconnect_delay(secs(1));
    assert_eq!(d, secs(2));
    let d = next_reconnect_delay(d);
    assert_eq!(d, secs(4));
    let d = next_reconnect_delay(d);
    assert_eq!(d, secs(8));
}

#[test]
fn reconnect_backoff_caps_at_max() {
    assert_eq!(next_reconnect_delay(secs(8)), RECONNECT_BACKOFF_MAX);
    assert_eq!(next_reconnect_delay(RECONNECT_BACKOFF_MAX), RECONNECT_BACKOFF_MAX);
    assert_eq!(next_reconnect_delay(secs(300)), RECONNECT_BACKOFF_MAX);
}

#[test]
fn reconnect_status_line_retrying() {
    let line = reconnect_status_line(0, 4, ReconnectPhase::Retrying);
    // In-place repaint: CR to column 0, dim, clear-to-eol, SGR reset.
    assert!(line.starts_with("\r\x1b[2m"), "{line:?}");
    assert!(line.ends_with("\x1b[0m\x1b[K"), "{line:?}");
    assert!(line.contains("reconnecting 4s"), "{line:?}");
    assert!(line.contains("^C aborts"), "{line:?}");
    // Spinner glyph is the frame at index 0.
    assert!(line.contains(spinner_glyph(0)), "{line:?}");
}

#[test]
fn reconnect_status_line_waiting() {
    let line = reconnect_status_line(3, 99, ReconnectPhase::WaitingForNetwork);
    assert!(line.contains("waiting for network"), "{line:?}");
    // No elapsed counter while parked offline.
    assert!(!line.contains("99s"), "{line:?}");
    assert!(line.contains(spinner_glyph(3)), "{line:?}");
}

#[test]
fn reconnect_status_line_spinner_wraps() {
    let a = reconnect_status_line(1, 0, ReconnectPhase::Retrying);
    let b = reconnect_status_line(1 + SPINNER_FRAMES, 0, ReconnectPhase::Retrying);
    assert_eq!(a, b);
    let c = reconnect_status_line(2, 0, ReconnectPhase::Retrying);
    assert_ne!(a, c);
}

#[test]
fn reconnect_err_line_repaints_in_place() {
    let err = reconnect_err_line("boom");
    assert!(err.starts_with("\r\x1b[31m"), "{err:?}");
    assert!(err.contains("boom"), "{err:?}");
    assert!(err.ends_with("\x1b[K\r\n"), "{err:?}");
}

#[test]
fn handshake_rejected_is_always_terminal() {
    assert!(is_terminal_handshake_err("handshake rejected: nope", false));
    assert!(is_terminal_handshake_err("handshake rejected: nope", true));
}

#[test]
fn handshake_eof_terminal_only_without_supervisor() {
    // Local daemon (no supervisor): accept-then-EOF means daemon is gone.
    assert!(is_terminal_handshake_err("daemon closed connection", false));
    assert!(is_terminal_handshake_err("daemon protocol error: x", false));
    // Live tunnel supervisor: ssh dying mid-handshake is transient.
    assert!(!is_terminal_handshake_err("daemon closed connection", true));
    assert!(!is_terminal_handshake_err("daemon protocol error: x", true));
}

#[test]
fn handshake_other_errs_never_terminal() {
    assert!(!is_terminal_handshake_err("handshake timed out after 10s", false));
    assert!(!is_terminal_handshake_err("handshake timed out after 10s", true));
}

#[test]
fn wall_elapsed_forward_returns_diff() {
    let t0 = secs(1_700_000_000);
    let t1 = t0 + secs(30);
    assert_eq!(wall_elapsed(t0, t1), secs(30));
}

#[test]
fn wall_elapsed_equal_is_zero() {
    let t0 = secs(1_700_000_000);
    assert_eq!(wall_elapsed(t0, t0), 0);
}

// Clock going backward (NTP correction, manual set) must not declare the
// link idle -- we have no evidence of silence, just a jumpy clock.
#[test]
fn wall_elapsed_backward_is_zero() {
    let t0 = secs(1_700_000_000);
    let earlier = t0 - secs(60);
    assert_eq!(wall_elapsed(t0, earlier), 0);
}

#[test]
fn link_is_stale_fresh_activity_is_not_stale() {
    let now = secs(1_700_000_000);
    assert!(!link_is_stale(now, secs(60), now));
}

// The wake-from-suspend case: last_activity is minutes in the past because
// SystemTime kept advancing while the process was frozen. The stdin arm
// checks this before timed_send so a keystroke triggers immediate reconnect
// instead of a SEND_TIMEOUT stall against a dead socket.
#[test]
fn link_is_stale_old_activity_is_stale() {
    let now = secs(1_700_000_000);
    let past = now - secs(1800);
    assert!(link_is_stale(past, secs(60), now));
}

// last_activity in the future (clock stepped backward after it was
// recorded) must not be treated as stale -- we have no evidence of silence.
#[test]
fn link_is_stale_future_activity_is_not_stale() {
    let now = secs(1_700_000_000);
    let future = now + secs(3600);
    assert!(!link_is_stale(future, secs(60), now));
}
