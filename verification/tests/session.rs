use gritty::config::{ConfigFile, Defaults};
use gritty::hosts::{
    empty_section, group_by_daemon, group_header, header_line, is_listable, listable_hosts,
    probe_result, ProbedHost,
};
use gritty::kill::{parse_kill_target, KillTarget};
use gritty::protocol::{version_mismatch, SessionEntry, PROTOCOL_VERSION};
use gritty::sessions::{
    auto_attach_target, auto_new_session_name, build_rows, detached_alert, format_timestamp,
    host_from_ctl_path, order_sessions, session_columns, session_list_text, session_status_cols,
    session_table_headers, session_wire_name, shorten_home, suggest_name, suggest_session,
    table_line, Row,
};

fn no_aliases() -> ConfigFile {
    ConfigFile::default()
}

fn row(name: &str) -> Row {
    Row {
        name: name.to_string(),
        attached: false,
        age: String::new(),
        cmd: String::new(),
        cwd: String::new(),
        client: String::new(),
        hotkey: None,
    }
}

#[test]
fn suggest_name_first_call_returns_zero() {
    assert_eq!(suggest_name(&vec![], "mylaptop"), "mylaptop/0");
    // A foreign session in another namespace doesn't occupy our slot 0.
    assert_eq!(suggest_name(&vec![row("laptop2/0")], "mylaptop"), "mylaptop/0");
    // A legacy `default` in our namespace doesn't occupy slot 0 either --
    // the integer scan ignores non-integer names.
    assert_eq!(suggest_name(&vec![row("mylaptop/default")], "mylaptop"), "mylaptop/0");
}

#[test]
fn suggest_name_increments_past_existing_integers() {
    assert_eq!(suggest_name(&vec![row("mylaptop/0")], "mylaptop"), "mylaptop/1");
    assert_eq!(suggest_name(&vec![row("mylaptop/0"), row("mylaptop/1")], "mylaptop"), "mylaptop/2");
}

#[test]
fn suggest_name_fills_first_free_slot() {
    // 1 is missing in our namespace -- pick it first, not max+1.
    assert_eq!(suggest_name(&vec![row("mylaptop/0"), row("mylaptop/2")], "mylaptop"), "mylaptop/1");
}

#[test]
fn suggest_name_ignores_non_integer_legacy_names() {
    // `default` and `session-2` from before the change shouldn't shift
    // our scan -- we always start at 0.
    let rows = vec![row("mylaptop/default"), row("mylaptop/session-2")];
    assert_eq!(suggest_name(&rows, "mylaptop"), "mylaptop/0");
}

fn entry() -> SessionEntry {
    SessionEntry {
        id: 3,
        name: String::new(),
        pty_path: "/dev/pts/7".to_string(),
        shell_pid: 1234,
        created_at: 0,
        attached: false,
        last_heartbeat: 0,
        foreground_cmd: "vim".to_string(),
        cwd: "/home/x".to_string(),
        client_name: "laptop".to_string(),
        agent_forwarding_active: false,
        is_last_attached: false,
        last_activity: 0,
    }
}

fn auto_entry(name: &str, attached: bool) -> SessionEntry {
    let mut e = entry();
    e.name = name.to_string();
    e.attached = attached;
    e
}

#[test]
fn auto_attach_no_sessions_creates_zero() {
    assert_eq!(auto_attach_target(&vec![], "defiant"), Some("defiant/0".to_string()));
}

#[test]
fn build_rows_puts_own_namespace_first() {
    // Server returns sessions sorted by id, mixing foreign and own
    // namespaces. The picker should surface our own first so the `1`-`9`
    // hotkeys land on them.
    let sessions = vec![
        auto_entry("laptop2/work", false),
        auto_entry("defiant/a", false),
        auto_entry("default", false),
        auto_entry("defiant/b", false),
    ];
    let rows = build_rows(&sessions, "defiant", 100, "/home/x");
    let names: Vec<&str> = rows.iter().map(|r| r.name.as_str()).collect();
    assert_eq!(names, vec!["defiant/a", "defiant/b", "laptop2/work", "default"]);
    // Hotkeys follow the displayed order.
    assert_eq!(rows[0].hotkey, Some('1'));
    assert_eq!(rows[1].hotkey, Some('2'));
    assert_eq!(rows[2].hotkey, Some('3'));
}

#[test]
fn build_rows_preserves_server_order_within_groups() {
    // Within each group (own / foreign), the server's id-order survives.
    let sessions = vec![
        auto_entry("defiant/b", false),
        auto_entry("laptop2/x", false),
        auto_entry("defiant/a", false),
        auto_entry("laptop2/y", false),
    ];
    let rows = build_rows(&sessions, "defiant", 100, "/home/x");
    let names: Vec<&str> = rows.iter().map(|r| r.name.as_str()).collect();
    assert_eq!(names, vec!["defiant/b", "defiant/a", "laptop2/x", "laptop2/y"]);
}

#[test]
fn auto_attach_ignores_legacy_unprefixed_name() {
    // A `default` from a pre-namespace gritty must not block us from
    // creating `defiant/0`.
    let s = vec![auto_entry("default", false)];
    assert_eq!(auto_attach_target(&s, "defiant"), Some("defiant/0".to_string()));
}

#[test]
fn auto_attach_ignores_foreign_namespace() {
    let s = vec![auto_entry("laptop2/work", false)];
    assert_eq!(auto_attach_target(&s, "defiant"), Some("defiant/0".to_string()));
}

#[test]
fn auto_attach_picks_lone_in_namespace_detached() {
    let s = vec![auto_entry("defiant/work", false)];
    assert_eq!(auto_attach_target(&s, "defiant"), Some("defiant/work".to_string()));
}

#[test]
fn auto_attach_shows_picker_when_lone_in_namespace_attached() {
    let s = vec![auto_entry("defiant/work", true)];
    assert_eq!(auto_attach_target(&s, "defiant"), None);
}

#[test]
fn auto_attach_picks_single_detached_among_in_namespace() {
    let s = vec![auto_entry("defiant/work", true), auto_entry("defiant/play", false)];
    assert_eq!(auto_attach_target(&s, "defiant"), Some("defiant/play".to_string()));
}

#[test]
fn auto_attach_shows_picker_for_multiple_detached_in_namespace() {
    let s = vec![auto_entry("defiant/work", false), auto_entry("defiant/play", false)];
    assert_eq!(auto_attach_target(&s, "defiant"), None);
}

#[test]
fn auto_attach_in_namespace_wins_over_foreign_detached() {
    let s = vec![
        auto_entry("defiant/work", false),
        auto_entry("laptop2/foo", false),
        auto_entry("default", false),
    ];
    assert_eq!(auto_attach_target(&s, "defiant"), Some("defiant/work".to_string()));
}

#[test]
fn session_status_cols_starting_when_no_shell() {
    let mut s = entry();
    s.shell_pid = 0;
    let cols = session_status_cols(&s, 100, "");
    // id, name(-), cmd, cwd, client, pty(-), pid(-), created(-), idle(-), status
    assert_eq!(cols[0], "3");
    assert_eq!(cols[1], "-"); // empty name renders as "-"
    assert_eq!(cols[5], "-"); // pty
    assert_eq!(cols[6], "-"); // pid
    assert_eq!(cols[8], "-"); // idle
    assert_eq!(cols[9], "starting");
}

#[test]
fn session_status_cols_attached_reports_heartbeat_age() {
    let mut s = entry();
    s.attached = true;
    s.last_heartbeat = 90;
    let cols = session_status_cols(&s, 100, "");
    assert_eq!(cols[9], "attached (heartbeat 10s ago)");
    assert_eq!(cols[6], "1234"); // pid
}

#[test]
fn session_status_cols_detached_and_attached_no_heartbeat() {
    let s = entry();
    assert_eq!(session_status_cols(&s, 100, "")[9], "detached");
    let mut s2 = entry();
    s2.attached = true;
    assert_eq!(session_status_cols(&s2, 100, "")[9], "attached");
}

#[test]
fn session_status_cols_detached_shows_presence_age() {
    // A detached session with a known last client presence (attach /
    // heartbeat / detach time) reports how long ago that was.
    let mut s = entry();
    s.last_heartbeat = 10000 - 7200; // 2h before now
    assert_eq!(session_status_cols(&s, 10000, "")[9], "detached (2h ago)");
}

#[test]
fn session_status_cols_idle_from_last_activity() {
    // Idle column = time since last terminal activity, compact format.
    let mut s = entry();
    s.last_activity = 100 - 60;
    assert_eq!(session_status_cols(&s, 100, "")[8], "1m");
}

#[test]
fn session_status_cols_idle_unknown_is_dash() {
    // last_activity == 0 (older server) renders as "-", not a huge age.
    let s = entry();
    assert_eq!(session_status_cols(&s, 100, "")[8], "-");
}

#[test]
fn session_status_cols_elides_ambient_client_prefix() {
    let mut s = entry();
    s.name = "mylaptop/work".to_string();
    let cols = session_status_cols(&s, 100, "mylaptop");
    assert_eq!(cols[1], "work"); // own prefix elided
}

#[test]
fn session_status_cols_keeps_foreign_prefix() {
    let mut s = entry();
    s.name = "laptop2/work".to_string();
    let cols = session_status_cols(&s, 100, "mylaptop");
    assert_eq!(cols[1], "laptop2/work"); // foreign prefix kept
}


fn session_target(host: &str, session: &str) -> KillTarget {
    KillTarget::Session { host: host.to_string(), session: session.to_string() }
}

#[test]
fn kill_target_host_session_splits() {
    let cfg = no_aliases();
    assert_eq!(parse_kill_target(&cfg, "local:3", &vec![]), session_target("local", "3"));
    assert_eq!(parse_kill_target(&cfg, "remote:work", &vec![]), session_target("remote", "work"));
}

#[test]
fn kill_target_bare_word_is_local_session() {
    let cfg = no_aliases();
    // Bare IDs and names go to `local` -- the reap-after-`ls` path.
    assert_eq!(parse_kill_target(&cfg, "3", &vec![]), session_target("local", "3"));
    assert_eq!(parse_kill_target(&cfg, "work", &vec![]), session_target("local", "work"));
}

#[test]
fn kill_target_bare_known_host_stays_host() {
    let cfg = no_aliases();
    // `local` and known tunnel names keep the "list that host" behavior.
    let tunnels = vec!["devbox".to_string()];
    assert_eq!(
        parse_kill_target(&cfg, "local", &tunnels),
        KillTarget::HostOnly("local".to_string())
    );
    assert_eq!(
        parse_kill_target(&cfg, "devbox", &tunnels),
        KillTarget::HostOnly("devbox".to_string())
    );
    // Unknown bare word is still a local session even when tunnels exist.
    assert_eq!(parse_kill_target(&cfg, "work", &tunnels), session_target("local", "work"));
}

#[test]
fn kill_target_trailing_colon_is_host_only() {
    // `host:` (empty session) means the host itself, like parse_target.
    assert_eq!(
        parse_kill_target(&no_aliases(), "devbox:", &vec![]),
        KillTarget::HostOnly("devbox".to_string())
    );
}

#[test]
fn kill_target_foreign_namespace_passes_through() {
    // A `/`-qualified name stays a session string; namespace resolution
    // happens later in kill_one (it's passed through literally).
    assert_eq!(
        parse_kill_target(&no_aliases(), "local:laptop2/work", &vec![]),
        session_target("local", "laptop2/work")
    );
}


#[test]
fn order_sessions_own_namespace_first_and_flagged() {
    let sessions = vec![
        auto_entry("laptop2/work", false),
        auto_entry("mylaptop/build", false),
        auto_entry("default", false),
        auto_entry("mylaptop/edit", false),
    ];
    let ordered = order_sessions(&sessions, "mylaptop");
    let names: Vec<&str> = ordered.iter().map(|(s, _)| s.name.as_str()).collect();
    assert_eq!(names, vec!["mylaptop/build", "mylaptop/edit", "laptop2/work", "default"]);
    let own_flags: Vec<bool> = ordered.iter().map(|(_, own)| *own).collect();
    assert_eq!(own_flags, vec![true, true, false, false]);
}

#[test]
fn order_sessions_groups_foreign_by_namespace() {
    // Foreign sessions interleaved by the server's id-order regroup by
    // namespace; id-order survives within each namespace (stable sort).
    let sessions = vec![
        auto_entry("zeta/1", false),
        auto_entry("alpha/9", false),
        auto_entry("zeta/0", false),
        auto_entry("alpha/2", false),
    ];
    let ordered = order_sessions(&sessions, "mylaptop");
    let names: Vec<&str> = ordered.iter().map(|(s, _)| s.name.as_str()).collect();
    assert_eq!(names, vec!["alpha/9", "alpha/2", "zeta/1", "zeta/0"]);
}

#[test]
fn order_sessions_empty_ambient_marks_nothing_own() {
    // An empty ambient client name (no elision context) must not flag
    // every session as own -- `"".starts_with("/")` style bugs.
    let sessions = vec![auto_entry("laptop2/work", false), auto_entry("default", false)];
    let ordered = order_sessions(&sessions, "");
    assert!(ordered.iter().all(|(_, own)| !own));
}


fn probed_ok(host: &str, dest: &str, server_id: u64) -> ProbedHost {
    ProbedHost {
        host: host.to_string(),
        tunnel: Some((dest.to_string(), "healthy".to_string())),
        outcome: Ok((server_id, vec![entry()])),
    }
}

fn probed_local(server_id: u64) -> ProbedHost {
    ProbedHost { host: "local".to_string(), tunnel: None, outcome: Ok((server_id, vec![])) }
}

fn probed_err(host: &str, dest: &str, status: &str, err: &str) -> ProbedHost {
    ProbedHost {
        host: host.to_string(),
        tunnel: Some((dest.to_string(), status.to_string())),
        outcome: Err(err.to_string()),
    }
}

#[test]
fn group_by_daemon_merges_same_server_id() {
    // Two tunnel names pointing at the same remote daemon collapse into
    // one group -- the duplicate-listing fix.
    let groups = group_by_daemon(vec![
        probed_ok("fate", "fate", 42),
        probed_ok("fate.x.pattern.net", "fate.x.pattern.net", 42),
    ]);
    assert_eq!(groups.len(), 1);
    let names: Vec<&str> = groups[0].members.iter().map(|m| m.host.as_str()).collect();
    assert_eq!(names, vec!["fate", "fate.x.pattern.net"]);
    // Sessions kept once, not concatenated twice.
    assert_eq!(groups[0].result.as_ref().unwrap().len(), 1);
}

#[test]
fn group_by_daemon_distinct_daemons_stay_separate() {
    let groups =
        group_by_daemon(vec![probed_local(1), probed_ok("devbox", "devbox.example.com", 2)]);
    assert_eq!(groups.len(), 2);
    assert_eq!(groups[0].members[0].host, "local"); // discovery order preserved
    assert_eq!(groups[1].members[0].host, "devbox");
}

#[test]
fn group_by_daemon_failed_probes_never_merge() {
    // Two failures (no server_id) must not merge with each other -- there
    // is no identity to merge on.
    let groups = group_by_daemon(vec![
        probed_err("a", "a.example.com", "reconnecting", "probe timed out after 2s"),
        probed_err("b", "b.example.com", "reconnecting", "probe timed out after 2s"),
    ]);
    assert_eq!(groups.len(), 2);
}

#[test]
fn group_header_local_has_no_annotation() {
    let groups = group_by_daemon(vec![probed_local(1)]);
    assert_eq!(group_header(&groups[0]), ("local".to_string(), None));
}

#[test]
fn group_header_shows_informative_destination_and_status() {
    // Tunnel name `fate` with destination `fate.x.pattern.net`: the
    // destination adds information, so it appears before the status.
    let groups = group_by_daemon(vec![probed_ok("fate", "fate.x.pattern.net", 1)]);
    let (names, annotation) = group_header(&groups[0]);
    assert_eq!(names, "fate");
    assert_eq!(annotation.as_deref(), Some("fate.x.pattern.net, healthy"));
}

#[test]
fn group_header_elides_redundant_destination() {
    // Destination identical to the tunnel name adds nothing.
    let groups = group_by_daemon(vec![probed_ok("fate", "fate", 1)]);
    let (names, annotation) = group_header(&groups[0]);
    assert_eq!(names, "fate");
    assert_eq!(annotation.as_deref(), Some("healthy"));
}

#[test]
fn group_header_merged_group_says_same_daemon() {
    let groups = group_by_daemon(vec![
        probed_ok("fate", "fate", 42),
        probed_ok("fate.x.pattern.net", "fate.x.pattern.net", 42),
    ]);
    let (names, annotation) = group_header(&groups[0]);
    assert_eq!(names, "fate, fate.x.pattern.net");
    assert_eq!(annotation.as_deref(), Some("same daemon, healthy"));
}

#[test]
fn is_listable_drops_only_dead_orphaned_sockets() {
    // A dead orphaned socket file (no tunnel, not local, probe failed) is
    // litter, not a connection.
    let orphan_dead = ProbedHost {
        host: "old-tunnel".to_string(),
        tunnel: None,
        outcome: Err("connect: Connection refused".to_string()),
    };
    assert!(!is_listable(&orphan_dead));

    // ...but an orphaned socket that answers is a live daemon -- show it.
    let orphan_live =
        ProbedHost { host: "old-tunnel".to_string(), tunnel: None, outcome: Ok((9, vec![])) };
    assert!(is_listable(&orphan_live));

    // A broken local daemon and a broken live tunnel both stay visible.
    let local_dead = ProbedHost {
        host: "local".to_string(),
        tunnel: None,
        outcome: Err("connect: Connection refused".to_string()),
    };
    assert!(is_listable(&local_dead));
    assert!(is_listable(&probed_err("devbox", "devbox", "reconnecting", "timed out")));
}

#[test]
fn a_list_of_nothing_is_an_error() {
    let dead = || ProbedHost {
        host: "old-tunnel".to_string(),
        tunnel: None,
        outcome: Err("connect: Connection refused".to_string()),
    };
    let nothing = "no server running and no tunnels found";
    assert_eq!(listable_hosts(vec![]).err().unwrap(), nothing);
    assert_eq!(listable_hosts(vec![dead()]).err().unwrap(), nothing);
    let kept = listable_hosts(vec![dead(), probed_ok("fate", "fate", 42)]).ok().unwrap();
    assert_eq!(kept.len(), 1);
    assert_eq!(kept[0].host, "fate");
}

#[test]
fn a_server_of_another_version_lists_nothing() {
    let listed = probe_result(PROTOCOL_VERSION, 9, Ok(vec![]));
    assert!(matches!(listed, Ok((9, v)) if v.is_empty()));
    let refused = probe_result(PROTOCOL_VERSION, 9, Err("boom".to_string()));
    assert_eq!(refused.err().unwrap(), "boom");
    let other = probe_result(PROTOCOL_VERSION + 1, 9, Ok(vec![]));
    assert_eq!(other.err().unwrap(), version_mismatch(PROTOCOL_VERSION + 1));
}

#[test]
fn group_header_reconnecting_wins_over_healthy() {
    // A failed probe whose flock says "reconnecting" surfaces that status
    // -- it is the state the user needs to act on.
    let groups =
        group_by_daemon(vec![probed_err("devbox", "devbox", "reconnecting", "timed out")]);
    let (_, annotation) = group_header(&groups[0]);
    assert_eq!(annotation.as_deref(), Some("reconnecting"));
}

#[test]
fn kill_target_bare_alias_is_host() {
    // A bare word that resolves through a configured alias is a host even
    // with no live tunnel -- aliases are only configured for connections.
    let mut cfg = ConfigFile::default();
    let mut foo = Defaults::default();
    foo.aliases = Some(vec!["foo.bar.com".to_string()]);
    cfg.set_host("foo", foo);
    assert_eq!(
        parse_kill_target(&cfg, "foo.bar.com", &vec![]),
        KillTarget::HostOnly("foo".to_string())
    );
    // And the host part of host:session resolves too.
    assert_eq!(parse_kill_target(&cfg, "foo.bar.com:3", &vec![]), session_target("foo", "3"));
}

#[test]
fn columns_line_up_with_their_headers() {
    let headers = session_table_headers();
    let s = auto_entry("mylaptop/work", false);
    let cols = session_columns(&s, 100, "mylaptop", "2026-01-01 00:00:00");
    assert_eq!(headers.len(), cols.len());
    assert_eq!(cols[1], "work");
    assert!(cols.contains(&"2026-01-01 00:00:00".to_string()));
    let created = format_timestamp(s.created_at);
    assert!(session_status_cols(&s, 100, "mylaptop").contains(&created));
}

#[test]
fn ordering_keeps_every_session() {
    let sessions =
        vec![auto_entry("b/1", false), auto_entry("me/0", true), auto_entry("a/1", false)];
    let ordered = order_sessions(&sessions, "me");
    assert_eq!(ordered.len(), 3);
    for s in &sessions {
        assert_eq!(ordered.iter().filter(|(o, _)| o.name == s.name).count(), 1);
    }
}

#[test]
fn unnamed_sessions_travel_by_number() {
    assert_eq!(session_wire_name(&entry()), "3");
    assert_eq!(session_wire_name(&auto_entry("me/work", false)), "me/work");
}

#[test]
fn new_session_takes_the_lowest_free_number() {
    assert_eq!(auto_new_session_name(None, "me"), "me/0");
    let sessions = vec![auto_entry("me/0", false), auto_entry("me/2", true)];
    assert_eq!(auto_new_session_name(Some(&sessions), "me"), "me/1");
}

#[test]
fn hosts_are_told_by_their_sockets() {
    assert_eq!(host_from_ctl_path("/run/g/connect-devbox.sock"), "devbox");
    assert_eq!(host_from_ctl_path("/run/g/ctl.sock"), "local");
}

#[test]
fn home_is_shortened() {
    assert_eq!(shorten_home("/home/x/src", "/home/x"), "~/src");
    assert_eq!(shorten_home("/etc", "/home/x"), "/etc");
}

#[test]
fn other_detached_sessions_are_mentioned() {
    assert_eq!(detached_alert("me/0", &vec![auto_entry("me/0", true)], "me"), None);
    let sessions = vec![auto_entry("me/0", true), auto_entry("me/1", false)];
    assert!(detached_alert("me/0", &sessions, "me").is_some());
}

#[test]
fn a_missing_session_is_suggested() {
    let sessions = vec![auto_entry("me/work", false)];
    let said = suggest_session("tail", "local", Some(&sessions), 100, "me");
    assert!(said.contains("gritty tail local:work") || said.contains("work"), "{said}");
    assert_eq!(
        suggest_session("tail", "local", None, 100, "me"),
        "specify a session: gritty tail local:<session>"
    );
    assert!(session_list_text("local", &sessions).contains("me/work"));
}

#[test]
fn own_lines_stand_out_on_a_terminal_only() {
    assert_eq!(table_line("  ", "x", true, false), "  x");
    assert_ne!(table_line("  ", "x", true, true), "  x");
    assert_eq!(table_line("", "x", false, false), "x");
}

#[test]
fn groups_say_when_there_is_nothing_to_list() {
    let groups = group_by_daemon(vec![
        probed_local(1),
        probed_err("devbox", "devbox", "reconnecting", "timed out"),
        probed_ok("fate", "fate", 2),
    ]);
    assert!(empty_section(&groups[0]).is_some());
    assert!(empty_section(&groups[1]).unwrap().contains("timed out"));
    assert_eq!(empty_section(&groups[2]), None);
    let (names, told) = group_header(&groups[1]);
    assert!(header_line(&names, told).contains("devbox"));
}
