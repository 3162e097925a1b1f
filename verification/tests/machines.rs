use gritty::attach::{
    client_config, first_attach, good_note, kill_reply, kill_server_reply, new_session_request,
    rename_reply, tail_reply, Attach, AttachAction, AttachEvent, ConnectFlags, ServerReply,
};
use gritty::config::{ConfigFile, SessionSettings};
use gritty::kill::{
    kill_again, plan_kill, KillPlan, KillRun, Restart, RestartAction, RestartEvent,
};
use gritty::monitor::{
    Monitor, MonitorAction, MonitorEvent, Phase, MAX_RESPAWN_BACKOFF, MIN_RESPAWN_BACKOFF,
    SPAWN_GRACE,
};
use gritty::picker::{
    edit, Held, Key, KeyCode, Picker, PickerAction, PickerEvent, Reply,
};
use gritty::protocol::{
    require_matched_version, version_mismatch, ErrorCode, Frame, SessionEntry, PROTOCOL_VERSION,
};
use gritty::rate::{RateLimiter, SecurityLimiters};
use gritty::reconnect::{
    check_reply, check_server, connect_failed, forward_bind_again, key_wake, reattach_request, AfterAttempt,
    AttachReply, Attempt, Reconnect, Surroundings, Wake, Woken, FORWARD_BIND_ATTEMPTS,
};
use gritty::relay::{
    decode_forward_request, encode_forward_request, init_frames, interrupted, ForwardEvent,
    ForwardRequest, ForwardStep, Interrupt, Now, Relay, RelayAction, RelayExit, StatusFacts,
};
use gritty::startup::{
    dry_run_text, options_file, plan_connect, startup_advice, ConnectOpts, StartAction, StartEvent,
    Startup, StopAction, StopEvent, Stopping,
};
use gritty::tail::{tail_request, Signal, Tail, TailStep, TERMINAL_RESET};
use gritty::target::{
    auto_start_args, auto_start_failure, auto_start_mode, discover_daemon_probes, resolve_destination,
    numeric_target, session_id_of, tunnel_start_args, AutoStart, Reach, ReachAction, ReachEvent, START_RETRIES,
};

const NOW: Now = Now { wall: 1_700_000_000_000, mono: 5_000_000, micros: 5_000_000_000 };

fn later(ms: u64) -> Now {
    Now { wall: NOW.wall + ms, mono: NOW.mono + ms, micros: NOW.micros + ms * 1000 }
}

fn session(id: u32, name: &str, attached: bool) -> SessionEntry {
    SessionEntry {
        id,
        name: name.to_string(),
        pty_path: "/dev/pts/7".to_string(),
        shell_pid: 1234,
        created_at: 0,
        attached,
        last_heartbeat: 0,
        foreground_cmd: "vim".to_string(),
        cwd: "/home/x".to_string(),
        client_name: "laptop".to_string(),
        agent_forwarding_active: false,
        is_last_attached: false,
        last_activity: 0,
    }
}

// --- the relay ---

fn relay() -> Relay {
    Relay::new(false, true, true, SecurityLimiters::new(), NOW)
}

#[test]
fn output_moves_the_position_and_notices_do_not() {
    let mut r = relay();
    let step = r.handle_server_frame(Some(Frame::Data(b"hello".to_vec())), later(10));
    assert!(matches!(&step.actions[..], [RelayAction::Write(d)] if d == b"hello"));
    assert_eq!(r.rendered_offset, 5);
    assert_eq!(r.last_activity, later(10).wall);
    let _ = r.handle_server_frame(Some(Frame::Notice(b"note".to_vec())), later(20));
    assert_eq!(r.rendered_offset, 5);
    let _ = r.handle_server_frame(Some(Frame::Resume { offset: 99 }), later(30));
    assert_eq!(r.rendered_offset, 99);
    assert_eq!(r.last_activity, later(30).wall);
}

#[test]
fn the_end_of_the_session_ends_the_relay() {
    let mut r = relay();
    let step = r.handle_server_frame(Some(Frame::Exit { code: 7 }), NOW);
    assert!(matches!(step.exit, Some(RelayExit::Exit(7))));
    let step = r.handle_server_frame(Some(Frame::Detached), NOW);
    assert!(matches!(step.exit, Some(RelayExit::Exit(0))));
    let step = r.handle_server_frame(Some(Frame::ServerShutdown), NOW);
    assert!(matches!(step.exit, Some(RelayExit::Exit(1))));
    let step = r.handle_server_frame(None, NOW);
    assert!(matches!(step.exit, Some(RelayExit::Disconnected)));
    assert!(matches!(interrupted(Interrupt::StdinClosed), RelayExit::Exit(_)));
}

#[test]
fn the_server_cannot_reach_out() {
    let mut r = relay();
    // The clipboard is never read out.
    let step = r.handle_server_frame(Some(Frame::ClipboardGet), NOW);
    assert!(matches!(
        &step.actions[..],
        [RelayAction::Notify(Frame::ClipboardData { data })] if data.is_empty()
    ));
    // A port is never opened because the server says so.
    let listen = Frame::PortForwardListen { forward_id: 1, listen_port: 80, target_port: 80 };
    let step = r.handle_server_frame(Some(listen), NOW);
    assert!(matches!(
        &step.actions[..],
        [RelayAction::Notify(Frame::PortForwardStop { forward_id: 1 })]
    ));
    let open = Frame::PortForwardOpen { forward_id: 1, channel_id: 3, target_port: 22 };
    let step = r.handle_server_frame(Some(open), NOW);
    assert!(matches!(
        &step.actions[..],
        [RelayAction::Notify(Frame::PortForwardClose { channel_id: 3 })]
    ));
    // An agent is offered only where there is one.
    let step = r.handle_server_frame(Some(Frame::AgentOpen { channel_id: 5 }), NOW);
    assert!(matches!(
        &step.actions[..],
        [RelayAction::Notify(Frame::AgentClose { channel_id: 5 })]
    ));
}

#[test]
fn only_web_addresses_open_and_only_a_few() {
    let mut r = relay();
    let open = |r: &mut Relay, url: &str| {
        let frame = Frame::OpenUrl { url: url.to_string() };
        !r.handle_server_frame(Some(frame), NOW).actions.is_empty()
    };
    assert!(!open(&mut r, "file:///etc/passwd"));
    let mut r = relay();
    assert!(open(&mut r, "https://example.com"));
    assert!(open(&mut r, "http://example.com"));
    assert!(!open(&mut r, "https://example.com"), "the limit is reached");
    let mut closed = Relay::new(false, true, false, SecurityLimiters::new(), NOW);
    assert!(!open(&mut closed, "https://example.com"));
}

#[test]
fn a_forward_leads_only_where_it_was_asked_to() {
    let mut r = relay();
    let ask = ForwardRequest { direction: 0, listen_port: 8080, target_port: 3000 };
    let (id, step) = r.handle_fwd_request(ask);
    assert_eq!(id % 2, 0);
    match step {
        ForwardStep::Request(Frame::PortForwardRequest { listen_port, target_port, .. }) => {
            assert_eq!((listen_port, target_port), (8080, 3000));
            let _ = r.forward_requested(id, ask_again(), true);
        }
        ForwardStep::Bind => {
            let _ = r.forward_bound(id, ask_again(), None);
        }
        _ => panic!("a forward is bound here or asked for there"),
    }
    assert_ne!(r.next_channel(), id);
    assert_ne!(r.next_tunnel(), 0);
}

fn ask_again() -> ForwardRequest {
    ForwardRequest { direction: 0, listen_port: 8080, target_port: 3000 }
}

#[test]
fn forward_requests_arrive_as_sent() {
    for (direction, listen_port, target_port) in [(0, 8080, 80), (1, 1, 65535), (1, 256, 255)] {
        let sent = encode_forward_request(ForwardRequest { direction, listen_port, target_port });
        let got = decode_forward_request(&sent).unwrap();
        assert_eq!(
            (got.direction, got.listen_port, got.target_port),
            (direction, listen_port, target_port)
        );
    }
    assert!(decode_forward_request(&[1, 2]).is_none());
}

#[test]
fn a_silent_link_is_probed_and_then_given_up() {
    let mut r = relay();
    let step = r.heartbeat(10_000, 60_000, later(1_000));
    assert!(step.actions.is_empty() && step.exit.is_none());
    let step = r.heartbeat(10_000, 60_000, later(10_000));
    assert!(step.actions.iter().any(|a| matches!(
        a,
        RelayAction::Send(Frame::Ping) | RelayAction::Notify(Frame::Ping)
    )));
    let step = r.heartbeat(10_000, 60_000, later(61_000));
    assert!(matches!(step.exit, Some(RelayExit::Disconnected)));
}

#[test]
fn the_first_messages_say_what_is_offered() {
    let env = vec![("TERM".to_string(), "xterm".to_string())];
    let frames = init_frames(env, true, true, true, 80, 24);
    assert!(frames.iter().any(|f| matches!(f, Frame::Env { .. })));
    assert!(frames.iter().any(|f| matches!(f, Frame::AgentForward)));
    assert!(frames.iter().any(|f| matches!(f, Frame::OpenForward)));
    assert!(frames.iter().any(|f| matches!(f, Frame::Resize { cols: 80, rows: 24 })));
    let frames = init_frames(vec![], true, false, false, 80, 24);
    assert!(!frames.iter().any(|f| matches!(f, Frame::AgentForward | Frame::OpenForward)));
}

#[test]
fn status_names_the_session() {
    let facts =
        StatusFacts { session: "me/0".to_string(), rtt: "12ms".to_string(), uptime_secs: 61 };
    let report = relay().status_report(&facts);
    assert!(report.contains("me/0") && report.contains("12ms"), "{report}");
    let mut r = relay();
    let step = r.handle_pf_event(ForwardEvent::Refused { channel_id: 4 });
    assert!(matches!(
        &step.actions[..],
        [RelayAction::Notify(Frame::PortForwardClose { channel_id: 4 })]
            | [RelayAction::Send(Frame::PortForwardClose { channel_id: 4 })]
    ));
}

#[test]
fn no_window_holds_more_than_the_limit() {
    let mut limit = RateLimiter::new(2, 1000);
    assert!(limit.check(0));
    assert!(limit.check(10));
    assert!(!limit.check(20));
    assert!(!limit.check(999));
    assert!(limit.check(1001));
    assert!(!limit.check(1002));
}

#[test]
fn requests_are_allowed_by_what_was_allowed_before() {
    let times = [0, 0, 400, 1000, 1000, 1001, 1001, 1400, 1401, 2001, 2001, 9000];
    let mut limit = RateLimiter::new(2, 1000);
    let mut allowed: Vec<u64> = Vec::new();
    for now in times {
        let recent = allowed.iter().filter(|t| now - **t <= 1000).count();
        assert_eq!(limit.check(now), recent < 2, "at {now}");
        if recent < 2 {
            allowed.push(now);
        }
    }
    assert_eq!(allowed, [0, 0, 1001, 1001, 9000]);
    for from in 0..2100 {
        let inside = allowed.iter().filter(|t| (from..=from + 1000).contains(*t)).count();
        assert!(inside <= 2, "{inside} from {from}");
    }
}

#[test]
fn refused_requests_use_up_no_budget() {
    let mut calm = RateLimiter::new(2, 1000);
    let mut pressed = RateLimiter::new(2, 1000);
    for now in [0, 500] {
        assert!(calm.check(now) && pressed.check(now));
    }
    for now in 501..=1000 {
        assert!(!pressed.check(now));
    }
    for now in [1001, 1400, 1501, 1502] {
        assert_eq!(calm.check(now), pressed.check(now), "at {now}");
    }
}

// --- reconnecting ---

fn calm() -> Surroundings {
    Surroundings { offline: false, supervisor_alive: true, socket_exists: true }
}

#[test]
fn control_c_gives_up_and_other_keys_hurry() {
    assert_eq!(key_wake(0x03), Wake::CtrlC);
    for key in [0x00, 0x02, 0x04, 0x0d, 0x1b, b'c', 0xff] {
        assert_eq!(key_wake(key), Wake::Key);
    }
}

#[test]
fn round_trips_are_measured_in_microseconds() {
    let mut r = relay();
    let _ = r.network_changed(NOW);
    let pong = Now { micros: NOW.micros + 1_234, mono: NOW.mono + 1, ..NOW };
    let _ = r.handle_server_frame(Some(Frame::Pong), pong);
    assert_eq!(r.last_rtt, Some(1_234));
}

#[test]
fn what_starts_depends_on_how_the_server_was_named() {
    assert!(matches!(auto_start_mode(Some("/x.sock"), "local", None), AutoStart::Nothing));
    assert!(matches!(auto_start_mode(Some("/x.sock"), "dev", None), AutoStart::Nothing));
    assert!(matches!(auto_start_mode(None, "local", None), AutoStart::Server));
    assert!(matches!(
        auto_start_mode(None, "dev", Some("me@dev".to_string())),
        AutoStart::Tunnel { name, config_dest: Some(d) } if name == "dev" && d == "me@dev"
    ));
}

#[test]
fn failed_probes_are_counted_to_the_end() {
    let mut m = Monitor::new("/r.sock".to_string(), NOW);
    m.probe_failures = u32::MAX;
    let event = MonitorEvent::Probed { alive: false, after_change: false };
    assert!(matches!(m.step(event, NOW), MonitorAction::Kill));
    assert_eq!(m.probe_failures, u32::MAX);
}

#[test]
fn a_fast_reconnect_is_invisible() {
    let mut r = Reconnect::new(false, true, false, 1_000);
    assert_eq!(r.tick(1_500, false, false), None);
    assert!(matches!(r.woke(Wake::Elapsed, calm(), 1_600), Woken::Attempt { line_dirty: false }));
    assert!(matches!(
        r.attempted(Attempt::Connected, true),
        AfterAttempt::Connected { text } if text.is_empty()
    ));
}

#[test]
fn a_slow_reconnect_shows_itself_but_never_over_a_program() {
    let mut r = Reconnect::new(false, true, false, 1_000);
    assert!(r.tick(2_500, false, false).unwrap().contains("reconnecting 1s"));
    assert!(r.tick(2_600, true, false).unwrap().contains("waiting for network"));
    let mut full = Reconnect::new(false, true, true, 1_000);
    assert_eq!(full.tick(60_000, false, false), None);
}

#[test]
fn some_ends_are_final() {
    for (attempt, word) in [
        (Attempt::SessionGone("x".to_string()), "session gone: x"),
        (Attempt::ServerRestarted, "server restarted"),
        (Attempt::OwnerChanged, "taken over"),
        (Attempt::VersionMismatch { server_version: 3 }, "remote=3"),
        (Attempt::DaemonGone, "crashed"),
        (Attempt::HandshakeErr("handshake rejected: no".to_string()), "handshake rejected"),
    ] {
        let mut r = Reconnect::new(false, true, false, 0);
        match r.attempted(attempt, true) {
            AfterAttempt::Quit { code: 1, text } => assert!(text.contains(word), "{text}"),
            _ => panic!("{word} ends the client"),
        }
    }
    let mut r = Reconnect::new(false, true, false, 0);
    assert!(matches!(r.attempted(Attempt::Retry, true), AfterAttempt::Again));
    assert!(matches!(r.woke(Wake::CtrlC, calm(), 0), Woken::Quit { code: 1, .. }));
}

#[test]
fn waiting_grows_until_the_network_changes() {
    let mut r = Reconnect::new(false, true, false, 0);
    assert_eq!(r.delay(), 1_000);
    let _ = r.woke(Wake::Elapsed, calm(), 1_000);
    assert_eq!(r.delay(), 2_000);
    let _ = r.woke(Wake::NetworkChanged, calm(), 2_000);
    assert_eq!(r.delay(), 1_000);
}

#[test]
fn a_key_tries_even_while_waiting_for_the_network() {
    let offline = Surroundings { offline: true, ..calm() };
    let mut r = Reconnect::new(false, true, false, 0);
    assert!(matches!(r.woke(Wake::Elapsed, offline, 1_000), Woken::Again));
    assert!(matches!(r.woke(Wake::NetworkChanged, offline, 1_100), Woken::Again));
    assert!(r.was_offline);
    assert!(matches!(r.woke(Wake::Key, offline, 1_200), Woken::Attempt { .. }));
    assert_eq!((r.was_offline, r.started), (true, 0));
    assert!(matches!(r.woke(Wake::Elapsed, calm(), 9_000), Woken::Attempt { .. }));
    assert_eq!((r.was_offline, r.started, r.backoff), (false, 9_000, 0));
    let gone = Surroundings { offline: true, supervisor_alive: false, socket_exists: false };
    assert!(matches!(r.woke(Wake::Key, gone, 9_500), Woken::Again));
}

#[test]
fn a_new_server_is_not_the_old_one() {
    assert!(check_server(7, PROTOCOL_VERSION, 7).is_none());
    assert!(matches!(check_server(8, PROTOCOL_VERSION, 7), Some(Attempt::ServerRestarted)));
    assert!(matches!(
        check_server(7, PROTOCOL_VERSION + 1, 7),
        Some(Attempt::VersionMismatch { .. })
    ));
    assert!(matches!(check_reply(AttachReply::Accepted, false), Attempt::Connected));
    assert!(matches!(check_reply(AttachReply::Unclear, false), Attempt::Retry));
    let gone = AttachReply::Refused { code: ErrorCode::NoSuchSession, message: "m".to_string() };
    assert!(matches!(check_reply(gone, false), Attempt::SessionGone(_)));
    assert!(matches!(connect_failed(true, false), Attempt::DaemonGone));
    assert!(matches!(connect_failed(true, true), Attempt::Retry));
    let request = reattach_request(9, "me", 80, 24, 5, 1234, true);
    assert_eq!(request.session, "9");
    assert_eq!((request.rendered_offset, request.line_dirty), (1234, true));
    assert!(forward_bind_again(0));
    assert!(!forward_bind_again(FORWARD_BIND_ATTEMPTS));
}

// --- tail ---

#[test]
fn a_tail_prints_output_only() {
    let mut t = Tail::new(NOW);
    let step = t.handle_frame(Some(Frame::Data(b"x".to_vec())), later(1));
    assert!(matches!(step, TailStep::Write(d) if d == b"x"));
    assert!(matches!(t.handle_frame(Some(Frame::ClipboardGet), later(2)), TailStep::Nothing));
    assert!(matches!(
        t.handle_frame(Some(Frame::Exit { code: 3 }), later(3)),
        TailStep::Quit { code: 3, .. }
    ));
    assert!(matches!(t.handle_frame(None, later(4)), TailStep::Reconnect));
    assert!(matches!(t.heartbeat(later(5)), TailStep::Nothing));
    assert!(matches!(t.heartbeat(later(10_000)), TailStep::Ping));
    t.sent(later(10_000));
    assert!(matches!(t.heartbeat(later(10_001)), TailStep::Nothing));
    assert!(matches!(t.heartbeat(later(70_000)), TailStep::Reconnect));
    t.reconnected(later(70_000));
    assert!(matches!(t.heartbeat(later(70_001)), TailStep::Ping));
}

#[test]
fn a_signal_ends_a_tail_and_a_change_of_network_probes() {
    let t = Tail::new(NOW);
    assert!(matches!(t.interrupted(Signal::Interrupt), TailStep::Quit { code: 0, .. }));
    assert!(matches!(t.interrupted(Signal::Terminate), TailStep::Quit { code: 1, .. }));
    assert!(matches!(t.interrupted(Signal::Hangup), TailStep::Quit { code: 1, .. }));
    assert!(matches!(t.network_changed(), TailStep::Ping));
    assert_eq!(tail_request(12), "12");
}

#[test]
fn a_tail_leaves_the_terminal_in_order_and_sends_probes_only() {
    let mut t = Tail::new(NOW);
    let ends = [
        t.handle_frame(Some(Frame::Exit { code: 0 }), later(1)),
        t.handle_frame(Some(Frame::ServerShutdown), later(2)),
        t.interrupted(Signal::Terminate),
        t.gave_up(1, "gone".to_string()),
    ];
    for end in ends {
        assert_eq!(end.final_text().as_deref(), Some(TERMINAL_RESET));
        assert!(end.frame().is_none());
    }
    assert!(matches!(t.network_changed().frame(), Some(Frame::Ping)));
    assert_eq!(t.network_changed().final_text(), None);
}

// --- the tunnel's monitor ---

#[test]
fn an_outage_is_remembered_over_failed_attempts() {
    let mut m = Monitor::new(String::new(), NOW);
    let _ = m.step(MonitorEvent::Exited { code: Some(255) }, NOW);
    let _ = m.step(MonitorEvent::LockChecked { owned: true }, NOW);
    let lost = MonitorEvent::NetworkChanged { unsatisfied: true };
    assert_eq!(m.step(lost, later(1)), MonitorAction::Nothing);
    assert_eq!(m.step(MonitorEvent::DeadlineReached, later(1000)), MonitorAction::EnsureRemote);
    assert_eq!(m.step(MonitorEvent::EnsureFailed, later(2000)), MonitorAction::CheckLock);
    let _ = m.step(MonitorEvent::LockChecked { owned: true }, later(2000));
    let back = MonitorEvent::NetworkChanged { unsatisfied: false };
    assert_eq!(m.step(back, later(2001)), MonitorAction::EnsureRemote);
    assert_eq!(m.backoff, 2 * MIN_RESPAWN_BACKOFF);
    assert!(!m.outage);
}

#[test]
fn transient_deaths_are_retried_with_growing_waits() {
    let mut m = Monitor::new("/remote.sock".to_string(), NOW);
    let mut waits = Vec::new();
    for _ in 0..8 {
        assert_eq!(m.step(MonitorEvent::Exited { code: Some(255) }, NOW), MonitorAction::CheckLock);
        match m.step(MonitorEvent::LockChecked { owned: true }, NOW) {
            MonitorAction::Sleep { until } => waits.push(until - NOW.mono),
            other => panic!("{other:?}"),
        }
        assert_eq!(m.step(MonitorEvent::DeadlineReached, NOW), MonitorAction::Spawn);
        assert_eq!(m.step(MonitorEvent::Spawned, NOW), MonitorAction::Nothing);
    }
    assert_eq!(waits[0], MIN_RESPAWN_BACKOFF);
    assert!(waits.windows(2).all(|w| w[0] <= w[1]));
    assert_eq!(*waits.last().unwrap(), MAX_RESPAWN_BACKOFF);
}

#[test]
fn a_real_failure_or_a_lost_lock_stops_the_monitor() {
    let mut m = Monitor::new(String::new(), NOW);
    assert_eq!(m.step(MonitorEvent::Exited { code: Some(1) }, NOW), MonitorAction::Stop);
    assert_eq!(m.phase, Phase::Stopped);
    let mut m = Monitor::new(String::new(), NOW);
    let _ = m.step(MonitorEvent::Exited { code: None }, NOW);
    assert_eq!(m.step(MonitorEvent::LockChecked { owned: false }, NOW), MonitorAction::Stop);
    let mut m = Monitor::new(String::new(), NOW);
    assert_eq!(
        m.step(MonitorEvent::ProbeTick { lock_owned: false }, NOW),
        MonitorAction::KillAndStop
    );
    let mut m = Monitor::new(String::new(), NOW);
    assert_eq!(m.step(MonitorEvent::Cancelled, NOW), MonitorAction::KillAndStop);
}

#[test]
fn probes_kill_only_after_two_failures_or_a_lost_route() {
    let mut m = Monitor::new("/r".to_string(), NOW);
    let dead = || MonitorEvent::Probed { alive: false, after_change: false };
    assert_eq!(m.step(dead(), NOW), MonitorAction::Nothing);
    assert_eq!(m.step(dead(), NOW), MonitorAction::Kill);

    let mut m = Monitor::new("/r".to_string(), NOW);
    let _ = m.step(MonitorEvent::NetworkChanged { unsatisfied: false }, NOW);
    assert_eq!(m.step(MonitorEvent::DebounceElapsed, NOW), MonitorAction::Nothing);
    let _ = m.step(MonitorEvent::NetworkChanged { unsatisfied: true }, NOW);
    assert_eq!(
        m.step(MonitorEvent::DebounceElapsed, NOW),
        MonitorAction::Probe { after_change: true }
    );
    let lost = || MonitorEvent::Probed { alive: false, after_change: true };
    assert_eq!(m.step(lost(), later(SPAWN_GRACE - 1)), MonitorAction::Nothing);
    assert_eq!(m.step(lost(), later(SPAWN_GRACE)), MonitorAction::Kill);
}

// --- starting and stopping a tunnel ---

fn opts() -> ConnectOpts {
    ConnectOpts {
        destination: "me@devbox".to_string(),
        no_server_start: false,
        ssh_options: vec![],
        cli_ssh_options: vec!["Port=2222".to_string()],
        name: None,
        dry_run: false,
        foreground: false,
        ignore_version_mismatch: false,
        isolate_control_path: true,
        connect_timeout: 30,
    }
}

#[test]
fn a_tunnel_is_named_after_its_host() {
    let (dest, name) = plan_connect(&opts()).ok().unwrap();
    assert_eq!(dest.ssh_dest(), "me@devbox");
    assert_eq!(name, "devbox");
    let mut bad = opts();
    bad.name = Some("a/b".to_string());
    assert!(plan_connect(&bad).is_err());
    let text = dry_run_text(&opts(), &dest, "/sock/connect-devbox.sock", None, None);
    assert!(text.contains("ssh ") && text.contains("me@devbox"), "{text}");
    assert!(startup_advice(&opts(), &dest, "/sock/connect-devbox.out").contains("ssh"));
    assert_eq!(options_file(&opts().cli_ssh_options).unwrap().trim(), "Port=2222");
    assert_eq!(options_file(&vec![]), None);
}

#[test]
fn a_tunnel_comes_up_step_by_step() {
    let mut s = Startup::new("devbox", "/sock", false, "ssh -v");
    let step = s.step(StartEvent::LockAcquired { cached: None });
    assert!(matches!(step, StartAction::EnsureRemote));
    let ensured = StartEvent::Ensured { sock: "/r".to_string(), version: Some(PROTOCOL_VERSION) };
    assert!(matches!(s.step(ensured), StartAction::Spawn));
    assert!(matches!(s.step(StartEvent::Spawned), StartAction::WaitForSocket));
    assert!(matches!(s.step(StartEvent::SocketUp), StartAction::Probe));
    assert!(matches!(s.step(StartEvent::Probed(Ok(PROTOCOL_VERSION))), StartAction::Ready));
    assert!(matches!(s.step(StartEvent::Spawned), StartAction::Nothing));
}

#[test]
fn another_version_stops_a_tunnel_on_either_path() {
    let mut s = Startup::new("devbox", "/sock", false, "");
    let _ = s.step(StartEvent::LockAcquired { cached: None });
    let ensured = StartEvent::Ensured { sock: "/r".to_string(), version: Some(1) };
    assert!(matches!(s.step(ensured), StartAction::Fail { .. }));

    let mut s = Startup::new("devbox", "/sock", false, "");
    let cached = StartEvent::LockAcquired { cached: Some("/r\n".to_string()) };
    assert!(matches!(s.step(cached), StartAction::Spawn));
    let _ = s.step(StartEvent::Spawned);
    let _ = s.step(StartEvent::SocketUp);
    assert!(matches!(s.step(StartEvent::Probed(Ok(1))), StartAction::Fail { .. }));
}

#[test]
fn a_second_start_leaves_a_running_tunnel_alone() {
    let mut s = Startup::new("devbox", "/sock", false, "");
    match s.step(StartEvent::LockHeld { socket_up: true, pid: Some(7) }) {
        StartAction::Leave { stdout, stderr } => {
            assert_eq!(stdout, "/sock");
            assert!(stderr.contains("already running"), "{stderr}");
        }
        _ => panic!("the tunnel is there"),
    }
}

#[test]
fn stopping_asks_before_it_kills() {
    let mut s = Stopping::new("devbox").ok().unwrap();
    let swept = |elapsed: u64| StopEvent::Swept { cleaned: false, elapsed };
    assert!(matches!(s.step(swept(0)), StopAction::ReadPid));
    let pid = StopEvent::PidFile(Some("4711\n".to_string()));
    assert!(matches!(s.step(pid), StopAction::Terminate { pid: 4711 }));
    assert!(matches!(s.step(swept(100)), StopAction::SweepAgain));
    assert!(matches!(s.step(swept(2_000)), StopAction::Kill { pid: 4711 }));
    match s.step(StopEvent::Swept { cleaned: true, elapsed: 2_100 }) {
        StopAction::Finish { stderr } => assert!(stderr.contains("killed"), "{stderr}"),
        _ => panic!("it is over"),
    }
    assert!(Stopping::new("").is_err());
}

// --- reaching a server ---

#[test]
fn retries_run_out() {
    let mut r = Reach::new("/ctl.sock", AutoStart::Server, false);
    assert!(matches!(r.step(ReachEvent::Refused), ReachAction::StartServer { .. }));
    assert!(matches!(r.step(ReachEvent::Started), ReachAction::Connect { note: None }));
    let mut tries = 0;
    loop {
        assert!(matches!(r.step(ReachEvent::Refused), ReachAction::Pause { ms: 500, .. }));
        tries += 1;
        match r.step(ReachEvent::Paused) {
            ReachAction::Connect { .. } => {}
            ReachAction::Fail(why) => {
                assert_eq!(why, "server did not become ready (/ctl.sock)");
                break;
            }
            _ => panic!("it goes on or ends"),
        }
    }
    assert_eq!(tries, START_RETRIES);
}

#[test]
fn nothing_is_started_where_nothing_may_be() {
    let mut r = Reach::new("/ctl.sock", AutoStart::Nothing, false);
    match r.step(ReachEvent::Refused) {
        ReachAction::Fail(why) => {
            assert_eq!(why, "no server running (could not connect to /ctl.sock)")
        }
        _ => panic!("nobody is there"),
    }
    let mut r = Reach::new("/ctl.sock", AutoStart::Nothing, true);
    assert!(matches!(r.step(ReachEvent::Refused), ReachAction::Connect { .. }));
    let tunnel = AutoStart::Tunnel { name: "devbox".to_string(), config_dest: None };
    let mut r = Reach::new("/ctl.sock", tunnel, false);
    assert!(matches!(r.step(ReachEvent::Refused), ReachAction::StartTunnel { .. }));
    let failed = ReachEvent::StartFailed("no ssh".to_string());
    match r.step(failed) {
        ReachAction::Connect { note: Some(note) } => assert!(note.contains("no ssh")),
        _ => panic!("somebody else may have started it"),
    }
    assert!(matches!(r.step(ReachEvent::Connected), ReachAction::Done { auto_started: true }));
}

#[test]
fn tunnels_start_as_they_were_made() {
    assert_eq!(resolve_destination("dev", Some("me@dev\n"), Some("other")), "me@dev");
    assert_eq!(resolve_destination("dev", None, Some("other")), "other");
    assert_eq!(resolve_destination("dev", None, None), "dev");
    let args = tunnel_start_args("dev", Some("me@dev"), None, Some("Port=2222\n"));
    assert_eq!(args, ["tunnel-create", "--name", "dev", "-o", "Port=2222", "me@dev"]);
    let verbose = auto_start_args(&args, true);
    assert_eq!(verbose.len(), args.len() + 1);
    assert_eq!(auto_start_args(&args, false), args);
    assert!(auto_start_failure(&args, "exit status: 1").contains("exit status: 1"));
    let probes = discover_daemon_probes("/sock", true, &vec![], &vec![]);
    assert_eq!(probes[0].host, "local");
}

#[test]
fn a_target_means_one_session() {
    let sessions = vec![session(3, "me/work", false), session(4, "4x", false)];
    assert_eq!(numeric_target("3"), Some(3));
    assert_eq!(numeric_target("4x"), None);
    assert_eq!(session_id_of("4x", &sessions), Ok(4));
    assert_eq!(session_id_of("me/work", &sessions), Ok(3));
    assert_eq!(session_id_of("nope", &sessions), Err("no such session: nope".to_string()));
    assert_eq!(
        session_id_of("-", &vec![]),
        Err("no sessions (cannot resolve '-')".to_string())
    );
    let mut last = vec![session(1, "a", false), session(2, "b", false)];
    last[0].last_heartbeat = 9;
    assert_eq!(session_id_of("-", &last), Ok(1));
    last[1].is_last_attached = true;
    assert_eq!(session_id_of("-", &last), Ok(2));
}

// --- attaching ---

fn flags() -> ConnectFlags {
    ConnectFlags {
        detach: false,
        no_create: false,
        force: false,
        pick: false,
        no_pick: false,
        new_session: false,
        wait: false,
    }
}

fn reached() -> AttachEvent {
    AttachEvent::Reached { version: PROTOCOL_VERSION }
}

fn answered(reply: ServerReply) -> AttachEvent {
    AttachEvent::Answered { reply, shown: "Frame".to_string() }
}

fn missing() -> ServerReply {
    ServerReply::Failed { code: ErrorCode::NoSuchSession, message: "no such".to_string() }
}

#[test]
fn a_named_session_is_attached_or_made() {
    let mut a = Attach::new(Some("me/work".to_string()), None, flags(), "me", "/run/ctl.sock");
    assert!(matches!(a.step(AttachEvent::Start), AttachAction::Reach));
    assert!(matches!(
        a.step(reached()),
        AttachAction::AskAttach { session, force: false } if session == "me/work"
    ));
    assert!(matches!(a.step(answered(missing())), AttachAction::Reach));
    assert!(matches!(
        a.step(reached()),
        AttachAction::AskNew { session, command } if session == "me/work" && command.is_empty()
    ));
    let made = answered(ServerReply::Created { id: 5 });
    assert!(matches!(a.step(made), AttachAction::AwaitAck { .. }));
    let ack = answered(ServerReply::Attached { session_id: 5 });
    assert!(matches!(a.step(ack), AttachAction::SendEnv));
    assert!(matches!(a.step(AttachEvent::Sent), AttachAction::List));
    assert!(matches!(
        a.step(AttachEvent::Listed(None)),
        AttachAction::Run { session_id: 5, say: None }
    ));
}

/// A session that was just made and confirmed.
fn just_made(flags: ConnectFlags) -> Attach {
    let mut a = Attach::new(Some("me/work".to_string()), None, flags, "me", "/run/ctl.sock");
    let _ = a.step(AttachEvent::Start);
    let _ = a.step(reached());
    let _ = a.step(answered(missing()));
    let _ = a.step(reached());
    let _ = a.step(answered(ServerReply::Created { id: 5 }));
    let _ = a.step(answered(ServerReply::Attached { session_id: 5 }));
    a
}

#[test]
fn forgotten_sessions_are_named_once_the_new_one_stands() {
    let mut a = just_made(flags());
    assert!(matches!(a.step(AttachEvent::Sent), AttachAction::List));
    let there = vec![session(5, "me/work", true), session(6, "me/old", false)];
    match a.step(AttachEvent::Listed(Some(there))) {
        AttachAction::Run { say: Some(line), session_id: 5 } => {
            assert!(line.contains("detached sessions: "), "{line}");
            assert!(line.contains("old"), "{line}");
            assert!(!line.contains("work"), "{line}");
        }
        _ => panic!("the client runs"),
    }
    let mut detach = flags();
    detach.detach = true;
    let mut a = just_made(detach);
    assert!(matches!(a.step(AttachEvent::Sent), AttachAction::Done { say: None }));
}

#[test]
fn sides_of_different_versions_do_not_talk() {
    let other = || AttachEvent::Reached { version: PROTOCOL_VERSION + 1 };
    let mut a = Attach::new(Some("me/work".to_string()), None, flags(), "me", "/run/ctl.sock");
    let _ = a.step(AttachEvent::Start);
    match a.step(other()) {
        AttachAction::Fail(why) => assert_eq!(why, version_mismatch(PROTOCOL_VERSION + 1)),
        _ => panic!("the attempt ends"),
    }
    let mut a = Attach::new(Some("me/work".to_string()), None, flags(), "me", "/run/ctl.sock");
    let _ = a.step(AttachEvent::Start);
    let _ = a.step(reached());
    assert!(matches!(a.step(answered(missing())), AttachAction::Reach));
    assert!(matches!(a.step(other()), AttachAction::Fail(_)));
    assert_eq!(require_matched_version(PROTOCOL_VERSION), Ok(()));
    assert_eq!(
        require_matched_version(PROTOCOL_VERSION - 1),
        Err(version_mismatch(PROTOCOL_VERSION - 1))
    );
}

#[test]
fn a_new_session_runs_what_was_asked_for() {
    let command = Some("make -j8".to_string());
    let mut a = Attach::new(Some("me/work".to_string()), command, flags(), "me", "/run/ctl.sock");
    let _ = a.step(AttachEvent::Start);
    let _ = a.step(reached());
    let _ = a.step(answered(missing()));
    assert!(matches!(
        a.step(reached()),
        AttachAction::AskNew { session, command } if session == "me/work" && command == "make -j8"
    ));
    let request = new_session_request("me/work", "make -j8", "me", Some((80, 24)));
    assert_eq!((request.name.as_str(), request.command.as_str()), ("me/work", "make -j8"));
    assert_eq!((request.cwd.as_str(), request.client_name.as_str()), ("", "me"));
    assert_eq!((request.cols, request.rows), (80, 24));
    let request = new_session_request("me/work", "", "me", None);
    assert_eq!((request.cols, request.rows), (0, 0));
}

#[test]
fn nothing_is_made_without_leave() {
    let mut no_create = flags();
    no_create.no_create = true;
    let mut a = Attach::new(Some("me/work".to_string()), None, no_create, "me", "/run/ctl.sock");
    let _ = a.step(AttachEvent::Start);
    let _ = a.step(reached());
    assert!(matches!(
        a.step(answered(missing())),
        AttachAction::Fail(why) if why == "no such session: me/work"
    ));
    let mut last = Attach::new(Some("-".to_string()), None, flags(), "me", "/run/ctl.sock");
    let _ = last.step(AttachEvent::Start);
    let _ = last.step(reached());
    assert!(matches!(
        last.step(answered(missing())),
        AttachAction::Fail(why) if why == "no previously-attached session on local"
    ));
    let mut taken = Attach::new(Some("me/work".to_string()), None, flags(), "me", "/run/ctl.sock");
    let _ = taken.step(AttachEvent::Start);
    let _ = taken.step(reached());
    let busy =
        ServerReply::Failed { code: ErrorCode::AlreadyAttached, message: "busy".to_string() };
    assert!(matches!(
        taken.step(answered(busy)),
        AttachAction::Fail(why) if why.contains("--force   to take over")
    ));
}

#[test]
fn one_session_of_ones_own_is_chosen_and_several_are_offered() {
    let mut a = Attach::new(None, None, flags(), "me", "/run/ctl.sock");
    assert!(matches!(a.step(AttachEvent::Start), AttachAction::List));
    let one = AttachEvent::Listed(Some(vec![session(1, "me/work", false)]));
    assert!(matches!(a.step(one), AttachAction::Reach));
    assert_eq!(a.name.as_deref(), Some("me/work"));

    let mut a = Attach::new(None, None, flags(), "me", "/run/ctl.sock");
    let _ = a.step(AttachEvent::Start);
    let two = vec![session(1, "me/a", false), session(2, "me/b", false)];
    assert!(matches!(a.step(AttachEvent::Listed(Some(two))), AttachAction::Pick));
    let picked = AttachEvent::Picked { name: "me/b".to_string(), force: true };
    assert!(matches!(a.step(picked), AttachAction::Reach));
    assert!(matches!(
        a.step(reached()),
        AttachAction::AskAttach { session, force: true } if session == "me/b"
    ));

    let mut fresh = flags();
    fresh.new_session = true;
    let mut a = Attach::new(None, None, fresh, "me", "/run/ctl.sock");
    assert!(matches!(a.step(AttachEvent::Start), AttachAction::Reach));
    assert!(matches!(a.step(reached()), AttachAction::List));
    let listed = AttachEvent::Listed(Some(vec![session(1, "me/0", false)]));
    assert!(matches!(
        a.step(listed),
        AttachAction::AskAttach { session, .. } if session == "me/1"
    ));
}

#[test]
fn replies_have_their_words() {
    let failed = || ServerReply::Failed { code: ErrorCode::Other, message: "boom".to_string() };
    assert_eq!(tail_reply("me/0", failed(), "F").unwrap_err(), "boom");
    assert_eq!(rename_reply("a", "b", failed(), "F").unwrap_err(), "boom");
    assert!(rename_reply("a", "b", ServerReply::Granted, "F").unwrap().contains('b'));
    assert!(kill_server_reply(ServerReply::Granted, "F").is_ok());
    assert!(kill_reply("work", ServerReply::Unexpected, "Frame").unwrap_err().contains("Frame"));
    assert!(good_note("x").contains("x"));
    let request = first_attach("me/0", "me", true, true, 80, 24);
    assert_eq!((request.cols, request.rows, request.no_replay), (0, 0, true));
    let config = client_config("me/0", 3, "/ctl.sock", &SessionSettings::default(), 7, 9);
    assert_eq!((config.session_id, config.expected_server_id, config.device_id), (3, 7, 9));
}

// --- killing and restarting ---

#[test]
fn kills_are_counted() {
    let mut run = KillRun::new();
    let _ = run.note("a", Ok("killed a".to_string()));
    let said = run.note("b", Err("boom".to_string()));
    assert!(said.contains("boom"), "{said}");
    assert!(run.finish(2).is_err());
    let mut fine = KillRun::new();
    let _ = fine.note("a", Ok("killed a".to_string()));
    assert!(fine.finish(1).is_ok());
}

#[test]
fn a_bare_name_is_tried_as_it_is_too() {
    let cfg = ConfigFile::default();
    match plan_kill(&cfg, "me", "/run", None, "work", &vec![]) {
        KillPlan::Kill { session, wire, ctl_path, .. } => {
            assert_eq!((session.as_str(), wire.as_str()), ("work", "me/work"));
            assert_eq!(ctl_path, "/run/ctl.sock");
        }
        _ => panic!("a bare word is a session"),
    }
    assert!(matches!(
        plan_kill(&cfg, "me", "/run", None, "local", &vec![]),
        KillPlan::Suggest { .. }
    ));
    assert_eq!(kill_again("3", "me", &missing()), Some("3".to_string()));
    assert_eq!(kill_again("3", "me", &ServerReply::Granted), None);
}

#[test]
fn a_tunnel_is_recalled_before_it_is_taken_down() {
    let mut r = Restart::new(Some("devbox".to_string()), None, None);
    let killed = RestartEvent::Killed { reply: Some(missing()), shown: String::new() };
    assert!(matches!(r.step(killed), RestartAction::Recall { .. }));
    let recalled = RestartEvent::Recalled {
        dest_file: Some("me@devbox".to_string()),
        options_file: Some("Port=2222\n".to_string()),
    };
    assert!(matches!(r.step(recalled), RestartAction::Stop));
    match r.step(RestartEvent::Stopped(Ok(()))) {
        RestartAction::Start { args, .. } => {
            assert_eq!(args.last().map(String::as_str), Some("me@devbox"));
            assert!(args.contains(&"Port=2222".to_string()));
        }
        _ => panic!("it is started again"),
    }
    assert!(matches!(
        r.step(RestartEvent::Started(Ok(()))),
        RestartAction::Done { say } if say.contains("devbox restarted")
    ));
    let mut local = Restart::new(None, None, None);
    let killed = RestartEvent::Killed { reply: None, shown: String::new() };
    assert!(matches!(local.step(killed), RestartAction::Start { .. }));
}

// --- the picker ---

fn key(code: KeyCode) -> PickerEvent {
    PickerEvent::Key(Key { code, held: Held::Nothing })
}

fn picker() -> Picker {
    let sessions = vec![session(1, "me/a", false), session(2, "me/b", true)];
    let (p, drawn) = Picker::open("local", &sessions, "me", 100, "/home/x");
    assert!(drawn.contains("Pick a session on local"), "{drawn}");
    p
}

fn chosen(a: PickerAction) -> Option<(String, bool)> {
    match a {
        PickerAction::Finish { choice, .. } => choice,
        _ => panic!("a choice ends the picking"),
    }
}

#[test]
fn the_cursor_stays_on_the_list() {
    let mut p = picker();
    for _ in 0..5 {
        let _ = p.step(key(KeyCode::Down));
        assert!(p.cursor <= p.rows.len());
    }
    for _ in 0..5 {
        let _ = p.step(key(KeyCode::Up));
        assert!(p.cursor <= p.rows.len());
    }
}

#[test]
fn the_cursor_begins_on_a_session_that_is_free() {
    let sessions = vec![session(1, "other/x", false), session(2, "me/b", true)];
    let (mut p, _) = Picker::open("local", &sessions, "me", 100, "/home/x");
    assert_eq!(chosen(p.step(key(KeyCode::Enter))), Some(("other/x".to_string(), false)));
}

#[test]
fn enter_never_takes_over() {
    let mut p = picker();
    p.cursor = 0;
    assert_eq!(chosen(p.step(key(KeyCode::Enter))), Some(("me/a".to_string(), false)));
    let mut p = picker();
    p.cursor = 1;
    assert_eq!(
        chosen(p.step(key(KeyCode::Char('f')))),
        Some(("me/b".to_string(), true))
    );
    let mut p = picker();
    assert_eq!(chosen(p.step(key(KeyCode::Esc))), None);
}

#[test]
fn killing_needs_a_yes() {
    let mut p = picker();
    p.cursor = 0;
    assert!(matches!(p.step(key(KeyCode::Char('x'))), PickerAction::Draw(_)));
    assert!(matches!(p.step(key(KeyCode::Char('n'))), PickerAction::Draw(_)));
    let _ = p.step(key(KeyCode::Char('x')));
    assert!(matches!(
        p.step(key(KeyCode::Char('y'))),
        PickerAction::Kill { session } if session == "me/a"
    ));
    assert!(matches!(p.step(PickerEvent::Killed(Reply::Granted)), PickerAction::List));
    let rest = Some(vec![session(2, "me/b", true)]);
    let listed = PickerEvent::Listed { sessions: rest, now: 100 };
    assert!(matches!(p.step(listed), PickerAction::Draw(_)));
    assert_eq!(p.rows.len(), 1);
}

#[test]
fn a_refused_rename_keeps_what_was_typed() {
    let mut p = picker();
    p.cursor = 0;
    let _ = p.step(key(KeyCode::Char('r')));
    let _ = p.step(key(KeyCode::Char('z')));
    let asked = p.step(key(KeyCode::Enter));
    assert!(matches!(asked, PickerAction::Rename { .. }));
    let refused = PickerEvent::Renamed(Reply::Refused("name taken".to_string()));
    match p.step(refused) {
        PickerAction::Draw(shown) => assert!(shown.contains("name taken"), "{shown}"),
        _ => panic!("the refusal is shown"),
    }
    assert_eq!(p.rows[0].name, "me/a");
}

#[test]
fn typing_edits_at_the_cursor() {
    let buf: Vec<char> = "ac".chars().collect();
    let plain = |code: KeyCode| Key { code, held: Held::Nothing };
    let (with_b, pos) = edit(&buf, 1, plain(KeyCode::Char('b'))).unwrap();
    assert_eq!((with_b.iter().collect::<String>(), pos), ("abc".to_string(), 2));
    let (back, pos) = edit(&with_b, 2, plain(KeyCode::Backspace)).unwrap();
    assert_eq!((back.iter().collect::<String>(), pos), ("ac".to_string(), 1));
    let (gone, pos) = edit(&buf, 0, plain(KeyCode::Delete)).unwrap();
    assert_eq!((gone.iter().collect::<String>(), pos), ("c".to_string(), 0));
    let (_, pos) = edit(&buf, 0, plain(KeyCode::End)).unwrap();
    assert_eq!(pos, 2);
}
