use gritty::config::{ConfigFile, ConfigStatus, Defaults};
use gritty::connect::TunnelStatus;
use gritty::doctor::{
    check_clients, check_config, check_local_server, check_log_file, check_sockets,
    check_stale_bindlocks, check_staleness, check_tunnel, check_tunnel_residue, check_unknown_file,
    count_status, doctor_groups, doctor_scope, format_size, has_failures, is_known_artifact, live_ids, may_remove,
    orphan_daemon_check, path_report, probe_error, render, render_paths, unknown_files, Check,
    CheckGroup, DirFacts, LogFacts, PathLine, ServerFacts, Status, StrayKind, TunnelFacts,
};
use gritty::forward::FoundFile;
use gritty::protocol::{ErrorCode, SessionEntry, PROTOCOL_VERSION};
use gritty::runinfo::Staleness;

const DIR: &str = "/sock";

fn names(v: &[&str]) -> Vec<String> {
    v.iter().map(|s| s.to_string()).collect()
}

fn found(name: &str, alive: bool) -> FoundFile {
    FoundFile { name: name.to_string(), alive }
}

fn log(path: &str, size: Option<u64>) -> LogFacts {
    LogFacts { path: path.to_string(), size, gigabytes: String::new() }
}

/// What the files that are not known come to, where all of them are plain
/// files and removing them works.
fn check_unknown_files(files: &[&str], ctl_name: Option<&str>, clean: bool) -> Vec<Check> {
    unknown_files(&names(files), ctl_name)
        .iter()
        .filter_map(|f| check_unknown_file(f, StrayKind::File, clean, Ok(())))
        .collect()
}

#[test]
fn format_size_bytes() {
    assert_eq!(format_size(500, ""), "500 B");
}

#[test]
fn format_size_kb() {
    assert_eq!(format_size(2048, ""), "2 KB");
}

#[test]
fn format_size_mb() {
    assert_eq!(format_size(5 * 1024 * 1024, ""), "5 MB");
}

#[test]
fn format_size_gb() {
    let bytes: u64 = 2 * 1024 * 1024 * 1024;
    let gigabytes = format!("{:.1}", bytes as f64 / (1024.0 * 1024.0 * 1024.0));
    assert_eq!(format_size(bytes, &gigabytes), "2.0 GB");
}

#[test]
fn check_config_missing_file() {
    let checks = check_config(&ConfigStatus::NotFound, &DirFacts::Missing, DIR);
    assert!(!checks.is_empty());
}

#[test]
fn check_config_tells_a_good_file_from_a_bad_one() {
    let dir = DirFacts::Directory { mode: 0o700, uid: 1000, my_uid: 1000 };
    let mut cfg = ConfigFile::default();
    cfg.set_host("dev", Defaults::default());
    let good = check_config(&ConfigStatus::Valid(Box::new(cfg)), &dir, DIR);
    assert!(good.iter().all(|c| c.status == Status::Good));
    let bad = check_config(&ConfigStatus::Invalid("line 3".to_string()), &dir, DIR);
    assert!(bad.iter().any(|c| c.status == Status::Fail && c.message.contains("line 3")));
}

#[test]
fn check_config_distrusts_a_shared_directory() {
    for dir in [
        DirFacts::Symlink,
        DirFacts::NotDirectory,
        DirFacts::Directory { mode: 0o755, uid: 1000, my_uid: 1000 },
        DirFacts::Directory { mode: 0o700, uid: 0, my_uid: 1000 },
    ] {
        let checks = check_config(&ConfigStatus::NotFound, &dir, DIR);
        assert!(checks.iter().any(|c| c.status != Status::Good));
    }
}

#[test]
fn path_report_labels_and_derivation() {
    let report =
        path_report("/cfg/config.toml", "/state/device_id", "/sock/ctl.sock", "/sock");
    let expected = [
        ("config file", "/cfg/config.toml"),
        ("socket dir", "/sock"),
        ("server socket", "/sock/ctl.sock"),
        ("device id", "/state/device_id"),
        ("server log", "/sock/daemon.log"),
        ("server output", "/sock/daemon.out"),
    ];
    assert_eq!(report.len(), expected.len());
    for (line, (label, path)) in report.iter().zip(expected) {
        assert_eq!(line.0, label);
        assert_eq!(line.1, path);
    }
}

#[test]
fn path_report_follows_ctl_socket_override() {
    // A --ctl-socket override points logs/sockets at the override's dir.
    let ctl = "/custom/dir/my.sock";
    let report = path_report("/cfg.toml", "/dev", ctl, "/custom/dir");

    let log = report.iter().find(|(l, _)| l == "server log").unwrap();
    assert_eq!(log.1, "/custom/dir/daemon.log");
    let sock = report.iter().find(|(l, _)| l == "server socket").unwrap();
    assert_eq!(sock.1, ctl);
}

#[test]
fn orphaned_sockets_empty_dir() {
    let checks = check_sockets(&vec![], &vec![]);
    assert!(checks.is_empty());
}

#[test]
fn orphaned_sockets_detects_stale() {
    let checks = check_sockets(&vec![found("agent-99.sock", false)], &vec![1, 2]);
    assert_eq!(checks.len(), 1);
    assert_eq!(checks[0].status, Status::Warn);
    assert!(checks[0].message.contains("agent-99.sock"));
}

#[test]
fn orphaned_sockets_ignores_live() {
    let files = vec![found("agent-1.sock", false), found("svc-1.sock", false)];
    let checks = check_sockets(&files, &vec![1]);
    assert!(checks.is_empty());
}

// --- check_tunnel_residue ---

#[test]
fn tunnel_residue_flags_lockless_sidecars() {
    // Dead tunnel: sock + pid, no lock. Tunnel name contains dots and
    // hyphens (the realistic case).
    let files = names(&[
        "connect-coder.chip-the-human.sock",
        "connect-coder.chip-the-human.pid",
    ]);
    let checks = check_tunnel_residue(&files);
    assert_eq!(checks.len(), 1);
    assert_eq!(checks[0].status, Status::Warn);
    assert!(checks[0].message.contains("coder.chip-the-human"));
    assert!(checks[0].message.contains(".sock"));
    assert!(checks[0].message.contains(".pid"));
    assert_eq!(checks[0].hint.as_deref(), Some("gritty tunnel-destroy coder.chip-the-human"));
}

#[test]
fn tunnel_residue_skips_locked_tunnels() {
    // A tunnel with a .lock file belongs to check_tunnels, not residue.
    assert!(check_tunnel_residue(&names(&["connect-devbox.sock", "connect-devbox.lock"]))
        .is_empty());
}

#[test]
fn tunnel_residue_ignores_deliberate_survivors() {
    // Logs and the remote-sock cache survive teardown by design.
    let files = names(&["connect-old.log", "connect-old.out", "connect-old.remote-sock"]);
    assert!(check_tunnel_residue(&files).is_empty());
}

// --- is_known_artifact ---

#[test]
fn known_artifacts_match_full_inventory() {
    // One representative per kind of file.
    for name in [
        "ctl.sock",
        "daemon.pid",
        "daemon.info",
        "daemon.log",
        "daemon.out",
        "daemon.log.1", // external rotation
        "gritty-open",
        "agent-7.sock",
        "svc-7.sock",
        "fwd-coder.chip-the-human-3.sock",
        "connect-devbox.sock",
        "connect-devbox.pid",
        "connect-devbox.info",
        "connect-devbox.lock",
        "connect-devbox.dest",
        "connect-devbox.ssh-opts",
        "connect-devbox.remote-sock",
        "connect-devbox.log",
        "connect-devbox.out",
        "connect-devbox.log.1.gz",     // rotated tunnel log
        "connect-my.dotted.host.sock", // tunnel name containing dots
        "ctl.sock.bindlock",           // bindlock companions classify by base
        "connect-devbox.sock.bindlock",
        "fwd-devbox-3.sock.bindlock",
    ] {
        assert!(is_known_artifact(name), "{name} should be known");
    }
}

#[test]
fn lock_companions_are_classified_by_their_base() {
    for name in ["ctl.sock", "agent-7.sock", "agent-x.sock", "connect-a.toml", "daemon.log", "", "x"]
    {
        let companion = format!("{name}.bindlock");
        assert_eq!(is_known_artifact(&companion), is_known_artifact(name), "{name}");
    }
    assert!(!is_known_artifact("ctl.sock.bindlock.bindlock"));
}

#[test]
fn session_sockets_are_known_by_number() {
    for kind in ["agent-", "svc-"] {
        for id in ["0", "7", "0042", "18446744073709551616"] {
            assert!(is_known_artifact(&format!("{kind}{id}.sock")), "{kind}{id}");
        }
        for id in ["", "x", "7x", "-7", "7.8", "\u{0667}", "7.sock"] {
            assert!(!is_known_artifact(&format!("{kind}{id}.sock")), "{kind}{id}");
        }
    }
}

#[test]
fn tunnel_files_are_known_whatever_the_tunnel_is_called() {
    for tunnel in ["", "devbox", "a.b.c", ".", "x.bindlock", "agent-x.sock", "daemon.log", "\u{e9}"] {
        for ext in
            ["sock", "pid", "info", "lock", "dest", "ssh-opts", "remote-sock", "log", "out"]
        {
            let name = format!("connect-{tunnel}.{ext}");
            assert!(is_known_artifact(&name), "{name}");
        }
    }
}

#[test]
fn unknown_artifacts_rejected() {
    for name in [
        "daemon.state",        // plausible future sidecar
        "agent-xyz.sock",      // non-numeric session id
        "svc-.sock",           // empty session id
        "connect-devbox.toml", // unrecognized tunnel extension
        "random-file",
        "ctl.sock.bak",
        ".bindlock", // bare suffix, empty base
    ] {
        assert!(!is_known_artifact(name), "{name} should be unknown");
    }
}

// --- check_unknown_files ---

#[test]
fn unknown_files_reported_not_removed_by_default() {
    let checks = check_unknown_files(&["daemon.state", "ctl.sock"], None, false);
    assert_eq!(checks.len(), 1);
    assert_eq!(checks[0].status, Status::Warn);
    assert!(checks[0].message.contains("daemon.state"));
    assert!(checks[0].hint.as_deref().unwrap().contains("--clean"));
    assert!(!may_remove(StrayKind::File, false));
}

#[test]
fn clean_removes_unknown_keeps_known() {
    let checks = check_unknown_files(&["daemon.state", "daemon.pid"], None, true);
    assert_eq!(checks.len(), 1);
    assert_eq!(checks[0].status, Status::Good);
    assert!(checks[0].message.contains("removed unknown file: daemon.state"));
    assert!(may_remove(StrayKind::File, true));
}

#[test]
fn clean_spares_live_sockets_and_directories() {
    // A socket with a live listener: in use, whoever created it.
    let checks = [
        check_unknown_file("mystery.sock", StrayKind::SocketInUse, true, Ok(())).unwrap(),
        check_unknown_file("mystery-dir", StrayKind::Directory, true, Ok(())).unwrap(),
    ];
    assert!(checks.iter().all(|c| c.status == Status::Warn));
    assert!(checks.iter().any(|c| c.message.contains("unknown directory: mystery-dir")));
    assert!(checks.iter().any(|c| c.message.contains("unknown socket in use: mystery.sock")));
    assert!(!may_remove(StrayKind::SocketInUse, true));
    assert!(!may_remove(StrayKind::Directory, true));
}

#[test]
fn clean_removes_dead_unknown_socket() {
    // The socket file remains but nothing serves it -- removable litter.
    let checks = check_unknown_files(&["mystery.sock"], None, true);
    assert_eq!(checks.len(), 1);
    assert_eq!(checks[0].status, Status::Good);
}

#[test]
fn ctl_socket_override_and_its_bindlock_are_known() {
    let files = ["my.sock", "my.sock.bindlock"];
    assert!(check_unknown_files(&files, Some("my.sock"), false).is_empty());
    // Without the override hint the same files are unknown.
    assert_eq!(check_unknown_files(&files, None, false).len(), 2);
}

#[test]
fn a_file_that_went_away_is_not_reported() {
    assert!(check_unknown_file("gone", StrayKind::Gone, true, Ok(())).is_none());
    let failed = Err("permission denied".to_string());
    let check = check_unknown_file("stuck", StrayKind::File, true, failed).unwrap();
    assert_eq!(check.status, Status::Warn);
    assert!(check.message.contains("permission denied"), "{}", check.message);
}

// --- check_stale_bindlocks ---

#[test]
fn stale_bindlocks_counted_when_socket_gone() {
    let files = names(&["fwd-devbox-3.sock.bindlock", "fwd-devbox-9.sock.bindlock"]);
    let checks = check_stale_bindlocks(&files, DIR);
    assert_eq!(checks.len(), 1);
    assert_eq!(checks[0].status, Status::Warn);
    assert!(checks[0].message.contains("2 stale bind-lock files"));
}

#[test]
fn bindlock_with_live_socket_not_stale() {
    let files = names(&["fwd-devbox-3.sock", "fwd-devbox-3.sock.bindlock"]);
    assert!(check_stale_bindlocks(&files, DIR).is_empty());
}

#[test]
fn bindlock_without_a_name_is_not_stale() {
    let files = names(&[".bindlock", "..bindlock", "...bindlock"]);
    assert!(check_stale_bindlocks(&files, DIR).is_empty());
}

// --- check_clients ---

#[test]
fn clients_reports_connectable_fwd_sockets() {
    // Host names contain dots and hyphens; the session id is after the last
    // hyphen.
    let checks = check_clients(&vec![found("fwd-fate.x.pattern-net-14.sock", true)]);
    assert_eq!(checks.len(), 1);
    assert_eq!(checks[0].status, Status::Good);
    assert!(checks[0].message.contains("fate.x.pattern-net:14"));
}

#[test]
fn clients_skips_dead_fwd_sockets() {
    // A plain file (or a socket nobody listens on) is not a live client --
    // check_sockets reports it as orphaned instead.
    assert!(check_clients(&vec![found("fwd-devbox-3.sock", false)]).is_empty());
}

// --- the report as a whole ---

#[test]
fn failures_decide_the_outcome() {
    let groups = vec![
        CheckGroup {
            title: "one".to_string(),
            checks: vec![
                Check::ok("fine".to_string()),
                Check::warn("hmm".to_string()).with_hint("look".to_string()),
            ],
        },
        CheckGroup { title: "two".to_string(), checks: vec![Check::fail("bad".to_string())] },
    ];
    assert!(has_failures(&groups));
    assert_eq!(count_status(&groups, Status::Good), 1);
    assert_eq!(count_status(&groups, Status::Warn), 1);
    assert_eq!(count_status(&groups, Status::Fail), 1);
    let shown = render(&groups);
    for word in ["one", "fine", "hmm", "look", "two", "bad"] {
        assert!(shown.contains(word), "{shown}");
    }
    let calm = vec![CheckGroup {
        title: "one".to_string(),
        checks: vec![Check::warn("hmm".to_string())],
    }];
    assert!(!has_failures(&calm));
}

#[test]
fn groups_have_their_titles() {
    let one = || vec![Check::ok("fine".to_string())];
    let groups = doctor_groups(one(), vec![], vec![], vec![], vec![], one());
    let titles: Vec<&str> = groups.iter().map(|g| g.title.as_str()).collect();
    assert_eq!(
        titles,
        ["Configuration", "Local server", "Orphaned processes", "Tunnels", "Clients", "Sockets"]
    );
    assert_eq!((groups[0].checks.len(), groups[1].checks.len()), (1, 0));
}

#[test]
fn statuses_have_tags_and_symbols() {
    assert_eq!(
        [Status::Good.tag(), Status::Warn.tag(), Status::Fail.tag()],
        ["ok", "warn", "fail"]
    );
    assert_ne!(Status::Good.symbol(), Status::Fail.symbol());
}

#[test]
fn missing_paths_are_marked() {
    let lines = vec![
        PathLine { label: "config file".to_string(), path: "/a".to_string(), exists: true },
        PathLine { label: "device id".to_string(), path: "/b".to_string(), exists: false },
    ];
    let shown = render_paths(&lines);
    assert!(shown.contains("/a"), "{shown}");
    assert!(shown.contains("/b"), "{shown}");
}

#[test]
fn staleness_comes_with_the_hint() {
    let mut checks: Vec<Check> = Vec::new();
    check_staleness(&None, "server", "gritty refresh", &mut checks);
    let before = checks.len();
    let stale = Some(Staleness::Protocol { running: 21, on_disk: 22 });
    check_staleness(&stale, "server", "gritty refresh", &mut checks);
    assert_eq!(checks.len(), before + 1);
    assert_eq!(checks[before].status, Status::Fail);
    assert_eq!(checks[before].hint.as_deref(), Some("gritty refresh"));
    let stale = Some(Staleness::Build {
        build: "old".to_string(),
        disk_build: "new".to_string(),
    });
    check_staleness(&stale, "server", "gritty refresh", &mut checks);
    assert_eq!(checks[before + 1].status, Status::Warn);
}

#[test]
fn a_large_log_is_worth_a_word() {
    let mut checks: Vec<Check> = Vec::new();
    check_log_file(&mut checks, &log("/sock/daemon.log", Some(1024)));
    check_log_file(&mut checks, &log("/sock/daemon.log", None));
    assert!(checks.iter().all(|c| c.status == Status::Good));
    let before = checks.len();
    check_log_file(&mut checks, &log("/sock/daemon.log", Some(100 * 1024 * 1024)));
    assert_eq!(checks[before].status, Status::Warn);
    assert!(checks[before].message.contains("100 MB"));
}

#[test]
fn a_silent_server_and_a_stale_tunnel_are_reported() {
    let server = ServerFacts {
        pid: Some(7),
        pid_alive: false,
        probe: Err("connection refused".to_string()),
        stale: None,
        files: vec![],
        log: log("/sock/daemon.log", None),
        out: log("/sock/daemon.out", None),
    };
    assert!(check_local_server(&server, DIR).iter().any(|c| c.status != Status::Good));
    assert!(live_ids(&server).is_empty());
    let running = ServerFacts {
        pid: Some(7),
        pid_alive: true,
        probe: Ok((PROTOCOL_VERSION, vec![])),
        stale: None,
        files: names(&["ctl.sock"]),
        log: log("/sock/daemon.log", None),
        out: log("/sock/daemon.out", None),
    };
    assert!(check_local_server(&running, DIR).iter().any(|c| c.status == Status::Good));
    let session = |id| SessionEntry {
        id,
        name: String::new(),
        pty_path: String::new(),
        shell_pid: 1,
        created_at: 0,
        attached: false,
        last_heartbeat: 0,
        foreground_cmd: String::new(),
        cwd: String::new(),
        client_name: String::new(),
        agent_forwarding_active: false,
        is_last_attached: false,
        last_activity: 0,
    };
    let two = || Ok((PROTOCOL_VERSION, vec![session(3), session(1)]));
    assert_eq!(live_ids(&ServerFacts { probe: two(), ..running }), [3, 1]);
    assert!(live_ids(&ServerFacts { probe: two(), ..server }).is_empty());

    let tunnel = TunnelFacts {
        name: "devbox".to_string(),
        status: TunnelStatus::Stale,
        pid: None,
        probe: Err("no route".to_string()),
        log: log("/sock/connect-devbox.log", None),
        stale: None,
    };
    let checks = check_tunnel(&tunnel, DIR);
    assert!(checks.iter().any(|c| c.status != Status::Good && c.message.contains("devbox")));
}

#[test]
fn refused_probes_and_strays_have_their_words() {
    assert!(probe_error(ErrorCode::Other, "boom").contains("boom"));
    assert_ne!(probe_error(ErrorCode::VersionMismatch, "x"), probe_error(ErrorCode::Other, "x"));
    let orphan = orphan_daemon_check("pid 4711");
    assert!(orphan.message.contains("pid 4711"));
    let (ctl, dir, name) = doctor_scope(DIR, None);
    assert_eq!((ctl.as_str(), dir.as_str()), ("/sock/ctl.sock", DIR));
    assert_eq!(name.as_deref(), Some("ctl.sock"));
    let (_, _, name) = doctor_scope("/sock/", Some("/sock//my.sock"));
    assert_eq!(name.as_deref(), Some("my.sock"));
    let (ctl, dir, name) = doctor_scope(DIR, Some("/custom/dir/my.sock"));
    assert_eq!((ctl.as_str(), dir.as_str()), ("/custom/dir/my.sock", "/custom/dir"));
    assert_eq!(name, None);
}
