use gritty::chrome::{
    error_msg, format_size, next_reconnect_delay, status_msg, success_msg, uptime_text,
};
use gritty::client::{clipboard_programs, terminal_size_or_default};
use gritty::columns::format_table;
use gritty::connect::{
    bootstrap_line, bootstrap_result, choose_quoted, connect_info_path, connect_log_path, connect_out_path, connect_remote_sock_path,
    connect_ssh_opts_path, ctl_socket_lock_path, format_ssh_diag, list_tunnels, name_of_file,
    parse_host, preflight_args, preflight_failure, probe_answer, read_persisted_ssh_options, read_pid_hint, ready_signal,
    remote_exec_failure, remote_exec_timed_out, remote_gritty_args, shell_quote, socket_wait_failure, stale_files,
    tunnel_info, tunnel_of_lock_file, tunnel_table_headers,
    tunnel_recreate_args, validate_connection_name, Destination, DestinationError, Greeting, NameError,
    TunnelStatus,
};
use gritty::durations::{format_duration, parse_duration};
use gritty::escape::{EscapeAction, EscapeProcessor};
use gritty::forward::{
    choose_forward, forward_active_text, forward_alias, forward_candidate_label, forward_reply,
    forward_usage, hex_text, no_client_text, parse_port_spec, plan_forward, ForwardCandidate,
    ForwardVia,
};
use gritty::naming::{
    display_session_name, own_session, resolve_session_name, sanitize_client_name,
};
use gritty::order::{comes_before, sort_by_keys, sort_texts, sorted_set, SortKey};
use gritty::paths::{
    file_name_of, file_stem_of, final_of, join_path, parent_of, paths_equal, replace_extension,
    trim_path,
};
use gritty::protocol::{ErrorCode, SessionEntry};
use gritty::runinfo::build_id;
use gritty::target::no_server_text;
use gritty::service::{
    clipboard_reply, config_summary, editor_from, info_lines, info_probe, open_url_reply, path_line,
    server_status_line, tunnel_info_line, InfoFacts, InfoProbe,
};
use gritty::table::Table;
use gritty::text::{
    cut_at, cut_at_last, decimal_text, join_texts, lines_of, lower, parse_unsigned, split_on, trim,
};
use gritty::config::{ConfigFile, ConfigStatus};

fn words(v: &[&str]) -> Vec<String> {
    v.iter().map(|s| s.to_string()).collect()
}

// --- names ---

#[test]
fn own_sessions_are_shown_short_and_resolve_again() {
    assert_eq!(resolve_session_name("work", "me"), "me/work");
    assert_eq!(resolve_session_name("you/work", "me"), "you/work");
    assert_eq!(resolve_session_name("-", "me"), "-");
    assert_eq!(display_session_name("me/work", "me"), "work");
    assert_eq!(display_session_name("you/work", "me"), "you/work");
    for full in ["me/work", "me/0"] {
        assert_eq!(resolve_session_name(&display_session_name(full, "me"), "me"), full);
    }
    assert!(own_session("me/work", "me"));
    assert!(!own_session("/work", ""));
    assert_eq!(sanitize_client_name("a/b".to_string()), "unknown");
    assert_eq!(sanitize_client_name("laptop".to_string()), "laptop");
}

// --- spans of time ---

#[test]
fn a_printed_span_is_accepted() {
    for secs in [0, 59, 60, 3599, 3600, 86399, 86400, 10_000_000] {
        let shown = format_duration(secs);
        let read = parse_duration(&shown).unwrap();
        assert!(read <= secs && secs - read < 86400, "{secs}: {shown}");
    }
    let err = parse_duration("7w\"").unwrap_err();
    assert!(err.contains("\"7w\\\"\""), "the text is shown as it is written: {err}");
}

// --- ports and forwards ---

#[test]
fn two_ports_read_back() {
    for (a, b) in [(1, 1), (8080, 80), (65535, 1)] {
        assert_eq!(parse_port_spec(&format!("{a}:{b}")), Ok((a, b)));
    }
}

#[test]
fn a_forward_says_where_it_goes() {
    let cfg = ConfigFile::default();
    let plan = plan_forward(
        &cfg,
        "me",
        "/run",
        None,
        Some("devbox:work".to_string()),
        Some("8080:3000".to_string()),
        0,
    )
    .ok()
    .unwrap();
    assert_eq!((plan.listen_port, plan.target_port), (8080, 3000));
    match plan.via {
        ForwardVia::Session { ctl_path, session, .. } => {
            assert_eq!(ctl_path, "/run/connect-devbox.sock");
            assert_eq!(session, "me/work");
        }
        _ => panic!("a session was named"),
    }
    let alone = plan_forward(&cfg, "me", "/run", None, Some("8080".to_string()), None, 1);
    assert!(matches!(alone.ok().unwrap().via, ForwardVia::Only { .. }));
    assert!(choose_forward(&words(&["a:0"]), 0, "8080", false).is_ok());
    assert!(choose_forward(&vec![], 0, "8080", false).is_err());
    assert!(choose_forward(&words(&["a:0", "b:0"]), 0, "8080", false).is_err());
    assert_ne!(forward_alias(0), forward_alias(1));
    assert!(forward_usage("lf").contains("gritty lf"));
    assert!(no_client_text("a:0", "/run/fwd-a-0.sock", false).contains("a:0"));
    assert!(forward_active_text(0, 8080, 3000, "a:0").contains("8080"));
}

#[test]
fn answers_to_a_forward() {
    assert!(forward_reply(1, "", 8080, 3000).is_ok());
    assert!(forward_reply(2, "server bind failed", 8080, 3000).unwrap_err().contains("8081:3000"));
    assert!(forward_reply(0x7f, "", 8080, 3000).unwrap_err().contains("7f"));
    assert_eq!(hex_text(0x0a), "0a");
    let c = ForwardCandidate {
        path: "/run/fwd-devbox-3.sock".to_string(),
        host: "devbox".to_string(),
        session_id: 3,
    };
    let listed = vec![SessionEntry {
        id: 3,
        name: "me/work".to_string(),
        pty_path: String::new(),
        shell_pid: 1,
        created_at: 0,
        attached: false,
        last_heartbeat: 0,
        foreground_cmd: String::new(),
        cwd: String::new(),
        client_name: String::new(),
        agent_forwarding_active: false,
        is_last_attached: false,
        last_activity: 0,
    }];
    assert_eq!(forward_candidate_label(&c, Some(&listed), "me"), "devbox:work");
    assert_eq!(forward_candidate_label(&c, None, "me"), "devbox (session #3)");
}

// --- keys ---

#[test]
fn no_key_is_lost() {
    let typed = b"ls\n~~x\n~q\n~?y";
    let mut whole = EscapeProcessor::new();
    let all = flatten(whole.process(typed));
    for cut in 0..typed.len() {
        let mut parts = EscapeProcessor::new();
        let mut got = flatten(parts.process(&typed[..cut]));
        got.extend(flatten(parts.process(&typed[cut..])));
        assert_eq!(got, all, "cut at {cut}");
    }
}

/// Keys as single bytes, with a mark for each command.
fn flatten(actions: Vec<EscapeAction>) -> Vec<u8> {
    let mut out = Vec::new();
    for a in actions {
        match a {
            EscapeAction::Data(d) => out.extend(d),
            _ => out.push(0),
        }
    }
    out
}

// --- destinations and tunnels ---

#[test]
fn each_bad_destination_has_its_reason() {
    for (s, e) in [
        ("", DestinationError::Empty),
        ("@host", DestinationError::EmptyUser),
        ("[::1]:x", DestinationError::InvalidPort),
        ("[::1]x", DestinationError::AfterBracket),
        ("[::1", DestinationError::UnclosedBracket),
        (":22", DestinationError::EmptyHost),
    ] {
        assert_eq!(Destination::parse(s).unwrap_err(), e, "{s}");
        assert!(!e.message(s).is_empty());
    }
    assert_eq!(parse_host("me@devbox:22").ok().unwrap(), "devbox");
}

#[test]
fn names_of_connections_stay_inside() {
    assert_eq!(validate_connection_name(""), Err(NameError::Empty));
    assert_eq!(validate_connection_name("a/b"), Err(NameError::Invalid));
    assert!(NameError::Invalid.message("a/b").contains("\"a/b\""));
    assert!(validate_connection_name("dev.box-1").is_ok());
    let dir = "/run/gritty";
    for path in [
        connect_log_path(dir, "dev"),
        connect_out_path(dir, "dev"),
        connect_ssh_opts_path(dir, "dev"),
        connect_remote_sock_path(dir, "dev"),
    ] {
        assert_eq!(parent_of(&path).as_deref(), Some(dir));
    }
    assert_eq!(
        ctl_socket_lock_path(dir, "/run/gritty/connect-dev.sock").as_deref(),
        Some("/run/gritty/connect-dev.lock")
    );
    assert_eq!(
        ctl_socket_lock_path("/run/gritty/", "/run/gritty/connect-dev.sock").as_deref(),
        Some("/run/gritty/connect-dev.lock")
    );
    for (dir, socket) in [
        ("/run/gritty", "/run//gritty/connect-dev.sock"),
        ("/run//gritty/.", "/run/gritty/./connect-dev.sock"),
        ("/run/gritty", "/run/./gritty//connect-dev.sock"),
    ] {
        let lock = ctl_socket_lock_path(dir, socket).unwrap();
        assert!(paths_equal(&lock, "/run/gritty/connect-dev.lock"), "{lock}");
    }
    assert_eq!(ctl_socket_lock_path(dir, "/tmp/connect-dev.sock"), None);
    assert_eq!(ctl_socket_lock_path(dir, "/run/gritty/sub/connect-dev.sock"), None);
    assert_eq!(ctl_socket_lock_path(dir, "connect-dev.sock"), None);
    assert_eq!(tunnel_of_lock_file("connect-dev.lock").as_deref(), Some("dev"));
    assert_eq!(tunnel_of_lock_file("dev.lock"), None);
    assert_eq!(name_of_file("connect-dev.sock", ".sock").as_deref(), Some("dev"));
}

#[test]
fn paths_are_compared_by_component() {
    for (a, b) in [("/a/b", "/a//b/"), ("a/./b", "a/b"), ("/", "//"), ("./a", "./a/."), ("", "")] {
        assert!(paths_equal(a, b), "{a} {b}");
        assert!(paths_equal(&trim_path(a), b), "{a} {b}");
    }
    for (a, b) in [("/a/b", "a/b"), ("./a", "a"), ("/a/../b", "/b"), ("/a", "/a/b"), ("", ".")] {
        assert!(!paths_equal(a, b), "{a} {b}");
    }
}

#[test]
fn cleaning_up_after_a_tunnel_spares_its_lock() {
    assert_eq!(
        stale_files("/run", "dev"),
        ["sock", "pid", "info", "dest", "ssh-opts"].map(|e| format!("/run/connect-dev.{e}"))
    );
    assert_eq!(connect_info_path("/run", "dev"), "/run/connect-dev.info");
}

#[test]
fn failures_of_ssh_say_what_to_do() {
    let dest = Destination::parse("me@dev:2222").unwrap();
    assert_eq!(
        preflight_failure(&dest, "me@dev:2222"),
        "SSH cannot connect non-interactively to me@dev\n  if SSH needs a password or host key \
         accept, use: gritty tunnel-create --foreground me@dev:2222"
    );
    assert!(bootstrap_line(&dest).contains("installing gritty on me@dev..."));
    assert_eq!(bootstrap_result(true, "exit status: 0"), Ok(()));
    assert_eq!(
        bootstrap_result(false, "exit status: 1"),
        Err("remote install failed (exit exit status: 1)".to_string())
    );
    assert_eq!(
        remote_exec_timed_out("ssh me@dev"),
        "ssh command timed out after 60s\n  to diagnose: ssh me@dev"
    );
    assert_eq!(
        no_server_text("/run/ctl.sock"),
        "no server running (could not connect to /run/ctl.sock)"
    );
}

#[test]
fn columns_are_as_wide_as_their_longest_text() {
    let row = |cells: &[&str]| cells.iter().map(|c| c.to_string()).collect::<Vec<String>>();
    let rows = vec![row(&["dev", "me@dev.example", "healthy"]), row(&["longer", "-", ""])];
    assert_eq!(
        format_table(&tunnel_table_headers(), &rows),
        [
            "Name    Destination     Status",
            "dev     me@dev.example  healthy",
            "longer  -",
        ]
    );
    assert_eq!(format_table(&row(&["A", "B"]), &vec![]), ["A  B"]);
    assert_eq!(format_table(&row(&["A"]), &vec![row(&["x", "y"])]), ["A", "x  y"]);
}

#[test]
fn info_shows_the_server_and_its_tunnels() {
    let tunnel = tunnel_info("/run", "dev", TunnelStatus::Healthy, Some("me@dev\n"), Some(7));
    let mut facts = InfoFacts {
        version: "1.2".to_string(),
        config_path: "/c/config.toml".to_string(),
        config: ConfigStatus::NotFound,
        socket_dir: "/run".to_string(),
        ctl_path: "/run/ctl.sock".to_string(),
        device_id: 9,
        device_id_path: "/d".to_string(),
        probe: InfoProbe::Sessions(1),
        pid: Some(3),
        log: ("/run/daemon.log".to_string(), true),
        out: ("/run/daemon.out".to_string(), false),
        tunnels: vec![],
    };
    let plain = [
        "gritty 1.2",
        "",
        "config:         /c/config.toml (not found)",
        "socket dir:     /run",
        "server socket:  /run/ctl.sock",
        "device id:      9 (/d)",
        "server status:  running (pid 3, 1 session)",
        "server log:     /run/daemon.log",
        "server output:  /run/daemon.out (not found)",
    ];
    assert_eq!(info_lines(&facts), plain);
    facts.tunnels = vec![(tunnel.unwrap(), false)];
    let lines = info_lines(&facts);
    assert_eq!(lines[..9], plain);
    assert_eq!(
        lines[9..],
        [
            "",
            "tunnels:",
            "  dev           healthy (pid 7)",
            "                log: /run/connect-dev.log (not found)",
        ]
    );
}

#[test]
fn tunnels_are_listed_with_what_is_known() {
    let info = tunnel_info("/run", "dev", TunnelStatus::Healthy, Some("me@dev\n"), Some(7));
    let info = info.unwrap();
    assert_eq!((info.destination.as_str(), info.status.as_str()), ("me@dev", "healthy"));
    assert!(tunnel_info_line(&info).contains("(pid 7)"));
    let rows = list_tunnels(&vec![info]).unwrap();
    assert_eq!(rows.len(), 1);
    assert!(list_tunnels(&vec![]).is_none());
    assert_eq!(read_pid_hint("7\n"), Some(7));
    assert_eq!(read_pid_hint("x"), None);
    assert_eq!(read_persisted_ssh_options(Some("Port=1\n\nB=2\n")), ["Port=1", "B=2"]);
    assert!(read_persisted_ssh_options(None).is_empty());
    assert_eq!(
        tunnel_recreate_args("dev", "me@dev", Some("Port=1\n")),
        ["tunnel-create", "--name", "dev", "-o", "Port=1", "me@dev"]
    );
    assert_eq!(ready_signal(0x0102).len(), 5);
}

#[test]
fn commands_are_shown_as_a_shell_takes_them() {
    assert_eq!(shell_quote("a b"), "'a b'");
    assert_eq!(choose_quoted("x y", Some("'x y'".to_string())), "'x y'");
    let dest = Destination::parse("me@dev:22").unwrap();
    assert!(format_ssh_diag(&dest, &vec![], false, 30).contains("me@dev"));
    assert!(remote_exec_failure(&dest, "boom", "exit status: 1", "ssh -v").contains("boom"));
    assert!(preflight_args(&dest, &vec![], 30).contains(&"me@dev".to_string()));
    let args = remote_gritty_args(&dest, &words(&["refresh"]), &vec![], 30);
    assert!(args.iter().any(|a| a.contains("gritty") && a.contains("refresh")));
}

// --- the services of a session ---

#[test]
fn services_answer() {
    assert_eq!(clipboard_reply(Some(1)).exit_code, 0);
    assert_eq!(clipboard_reply(Some(0)).exit_code, 1);
    assert!(clipboard_reply(None).say.contains("could not confirm"));
    assert_eq!(open_url_reply(Some(0), "http://x", false).exit_code, 1);
    let shim = open_url_reply(Some(0), "http://x", true);
    assert_eq!(shim.exit_code, 0);
    assert!(shim.say.contains("http://x"));
    assert_eq!(editor_from(None, "vi -n"), ("vi -n".to_string(), vec![]));
    assert_eq!(
        editor_from(Some(words(&["code", "-w"])), "code -w"),
        ("code".to_string(), words(&["-w"]))
    );
    assert_eq!(config_summary(&ConfigStatus::NotFound), "not found");
    assert!(matches!(info_probe(Some(2), None), InfoProbe::Sessions(2)));
    let old = info_probe(None, Some(ErrorCode::VersionMismatch));
    assert!(server_status_line(&old, Some(7)).contains("gritty refresh"));
    assert_eq!(path_line("config:", "/c", false), "config: /c (not found)");
}

// --- texts, paths, tables ---

#[test]
fn sizes_and_spans_are_readable() {
    assert_eq!(format_size(500), "500 B");
    assert_eq!(format_size(1536), "1.50 KiB");
    assert_eq!(uptime_text(3661), "1h 1m 1s");
    assert!(status_msg("a").contains('a') && success_msg("b").contains('b'));
    assert!(error_msg("c").contains('c'));
    let mut d = 0;
    for _ in 0..10 {
        let next = next_reconnect_delay(d);
        assert!(next >= d && (1_000..=10_000).contains(&next));
        d = next;
    }
}

#[test]
fn decimal_numbers_read_back() {
    for n in [0, 7, 10, 65535, u64::MAX] {
        assert_eq!(decimal_text(n), n.to_string());
        assert_eq!(parse_unsigned(&decimal_text(n), u64::MAX), Some(n));
    }
    assert_eq!(parse_unsigned("+7", 9), "+7".parse::<u8>().ok().map(u64::from));
    assert_eq!(parse_unsigned("70", 65), None);
    assert_eq!(parse_unsigned("", 65), None);
}

#[test]
fn texts_are_taken_apart() {
    assert_eq!(cut_at("a:b:c", ':'), Some(("a".to_string(), "b:c".to_string())));
    assert_eq!(cut_at_last("a:b:c", ':'), Some(("a:b".to_string(), "c".to_string())));
    assert_eq!(split_on("a//b", '/'), ["a", "", "b"]);
    assert_eq!(lines_of("a\r\nb\n"), ["a", "b"]);
    assert_eq!(join_texts(&words(&["a", "b"]), ", "), "a, b");
    assert_eq!(trim(" \t\u{a0}x y\n"), "x y");
    assert_eq!(lower("NeVer"), "never");
}

#[test]
fn a_file_in_a_directory_is_found_again() {
    for (dir, file) in [("/run", "a.sock"), ("rel/dir", "b")] {
        let path = join_path(dir, file);
        assert_eq!(file_name_of(&path).as_deref(), Some(file));
        assert_eq!(parent_of(&path).as_deref(), Some(dir));
    }
    assert_eq!(final_of("/a/b/"), "b");
    assert_eq!(file_stem_of("/a/ctl.sock").as_deref(), Some("ctl"));
    assert_eq!(replace_extension("/a/ctl.sock", "lock"), "/a/ctl.lock");
    assert_eq!(file_name_of("/a/.."), None);
}

#[test]
fn sorting_is_stable_and_unique() {
    assert!(comes_before("a", "b"));
    assert_eq!(sort_texts(words(&["b", "a", "b"])), ["a", "b", "b"]);
    assert_eq!(sorted_set(&words(&["b", "a", "b"])), ["a", "b"]);
    let key = |rank: u8| SortKey { rank, text: String::new(), number: 0 };
    let (sorted, from) = sort_by_keys(vec!['x', 'y', 'z'], &vec![key(1), key(0), key(1)]);
    assert_eq!(sorted, ['y', 'x', 'z']);
    assert_eq!(from, [1, 0, 2]);
}

#[test]
fn tables_keep_the_last_value() {
    let mut t: Table<u32> = Table::new();
    t.insert(1, 10);
    t.insert(2, 10);
    t.insert(1, 20);
    assert_eq!((t.len(), t.get(1), t.get(3)), (2, Some(20), None));
    assert_eq!(t.count_value(10), 1);
    assert!(t.remove(1) && !t.remove(1));
    t.remove_value(10);
    assert_eq!(t.len(), 0);
    assert!(!t.contains(2));
    t.insert(5, 1);
    t.clear();
    assert!(t.rows().is_empty());
}

#[test]
fn builds_are_told_apart() {
    assert_eq!(build_id(Some("abc1234\n"), false, "1.2.3"), "abc1234");
    assert_eq!(build_id(Some("abc1234\n"), true, "1.2.3"), "abc1234-dirty");
    assert_eq!(build_id(Some(" \n"), true, "1.2.3"), "v1.2.3");
    assert_eq!(build_id(None, false, "1.2.3"), "v1.2.3");
}

#[test]
fn a_dead_probe_says_why() {
    assert_eq!(probe_answer(Greeting::Answered { version: 22 }), Ok(22));
    for (greeting, why) in [
        (Greeting::NotConnected, "connect failed"),
        (Greeting::NotSent, "Hello send failed"),
        (Greeting::Other, "unexpected frame"),
        (Greeting::Garbled, "decode error"),
        (Greeting::Closed, "EOF before HelloAck"),
        (Greeting::TimedOut, "HelloAck timeout"),
        (Greeting::Broken, "ListSessions send failed"),
        (Greeting::TooLong, "probe timeout"),
    ] {
        assert_eq!(probe_answer(greeting), Err(why));
    }
    assert_eq!(
        socket_wait_failure(1, "/run/never.sock", "entity not found", "No such file"),
        "timed out after 1s waiting for SSH tunnel socket at /run/never.sock \
         (entity not found: No such file)"
    );
}

#[test]
fn the_terminal_and_the_clipboard_have_defaults() {
    assert_eq!(terminal_size_or_default(None), (80, 24));
    assert_eq!(terminal_size_or_default(Some((120, 40))), (120, 40));
    assert_eq!(clipboard_programs(true), [["pbcopy"]]);
    assert_eq!(clipboard_programs(false)[1], ["xclip", "-selection", "clipboard"]);
}
