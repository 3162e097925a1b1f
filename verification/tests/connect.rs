use gritty::connect::{
    base_ssh_args, build_tunnel_recreate_args, check_remote_protocol_version, connect_dest_path,
    connect_lock_path, connect_pid_path, connection_socket_path, enumerate_tunnels, format_command,
    local_socket_path, lock_still_owned, may_remove_files, parse_ensure_remote_output,
    probe_tunnel_status, quote_remote_install_dir, remote_exec_command, shell_quote,
    tunnel_command, Destination, LockIdentity, TunnelStatus, REMOTE_ENSURE_CMD, REMOTE_PATH_PREFIX,
};
use gritty::monitor::{
    classify_exit, double_backoff, respawn_sleep, socket_wait_deadline, ExitClass,
    HEALTHY_CHILD_THRESHOLD, MAX_RESPAWN_BACKOFF, MIN_RESPAWN_BACKOFF,
};
use gritty::paths::file_name_of;
use gritty::protocol::PROTOCOL_VERSION;

const DIR: &str = "/run/user/1000/gritty";

/// Seconds in milliseconds.
fn secs(n: u64) -> u64 {
    n * 1000
}

/// The exit code of a child that ended by itself.
fn status_with_code(code: i32) -> Option<i32> {
    Some(code)
}

/// A child that a signal ended has no exit code.
fn status_killed_by_signal(_signal: i32) -> Option<i32> {
    None
}

#[test]
fn parse_destination_user_host() {
    let d = Destination::parse("user@host").unwrap();
    assert_eq!(d.user.as_deref(), Some("user"));
    assert_eq!(d.host, "host");
    assert_eq!(d.port, None);
}

#[test]
fn quote_install_dir_default_expands_tilde() {
    // The shipped default must still resolve $HOME on the remote.
    assert_eq!(quote_remote_install_dir("~/.local/bin"), "\"$HOME\"/.local/bin");
    assert_eq!(quote_remote_install_dir("~"), "\"$HOME\"");
}

#[test]
fn quote_install_dir_absolute_is_quoted() {
    assert_eq!(quote_remote_install_dir("/opt/gritty/bin"), "/opt/gritty/bin");
}

#[test]
fn quote_install_dir_with_space_is_safe() {
    // A space must not split the GRITTY_INSTALL_DIR assignment.
    let q = quote_remote_install_dir("/opt/gritty tools/bin");
    assert!(!q.contains("tools/bin sh"), "unquoted space: {q}");
    assert_eq!(q, "'/opt/gritty tools/bin'");
    // Tilde form with a space: $HOME stays live, the rest is quoted.
    assert_eq!(quote_remote_install_dir("~/my tools"), "\"$HOME\"/'my tools'");
}

#[test]
fn quote_install_dir_neutralizes_metacharacters() {
    // Command substitution in the path must be inert -- single-quoted,
    // so the remote shell treats `$(...)` as literal characters.
    assert_eq!(quote_remote_install_dir("/opt/$(touch pwned)"), "'/opt/$(touch pwned)'");
}

#[test]
fn build_tunnel_recreate_args_without_options() {
    assert_eq!(
        build_tunnel_recreate_args("dev", "user@dev.example.com", &vec![]),
        vec!["tunnel-create", "--name", "dev", "user@dev.example.com"]
    );
}

#[test]
fn build_tunnel_recreate_args_replays_each_option() {
    let opts = vec!["ProxyJump=bastion".to_string(), "Port=2222".to_string()];
    assert_eq!(
        build_tunnel_recreate_args("dev", "dev", &opts),
        vec![
            "tunnel-create",
            "--name",
            "dev",
            "-o",
            "ProxyJump=bastion",
            "-o",
            "Port=2222",
            "dev",
        ]
    );
}

#[test]
fn parse_destination_host_only() {
    let d = Destination::parse("myhost").unwrap();
    assert_eq!(d.user, None);
    assert_eq!(d.host, "myhost");
    assert_eq!(d.port, None);
}

#[test]
fn parse_destination_host_port() {
    let d = Destination::parse("host:2222").unwrap();
    assert_eq!(d.user, None);
    assert_eq!(d.host, "host");
    assert_eq!(d.port, Some(2222));
}

#[test]
fn parse_destination_user_host_port() {
    let d = Destination::parse("user@host:2222").unwrap();
    assert_eq!(d.user.as_deref(), Some("user"));
    assert_eq!(d.host, "host");
    assert_eq!(d.port, Some(2222));
}

#[test]
fn parse_destination_invalid_empty() {
    assert!(Destination::parse("").is_err());
}

#[test]
fn parse_destination_invalid_at_only() {
    assert!(Destination::parse("@host").is_err());
}

#[test]
fn parse_destination_invalid_colon_only() {
    assert!(Destination::parse(":2222").is_err());
}

#[test]
fn parse_destination_ipv6_bracketed() {
    let d = Destination::parse("[::1]").unwrap();
    assert_eq!(d.user, None);
    assert_eq!(d.host, "::1");
    assert_eq!(d.port, None);
}

#[test]
fn parse_destination_ipv6_bracketed_port() {
    let d = Destination::parse("[::1]:2222").unwrap();
    assert_eq!(d.user, None);
    assert_eq!(d.host, "::1");
    assert_eq!(d.port, Some(2222));
}

#[test]
fn parse_destination_ipv6_user_bracketed_port() {
    let d = Destination::parse("user@[fe80::1]:22").unwrap();
    assert_eq!(d.user.as_deref(), Some("user"));
    assert_eq!(d.host, "fe80::1");
    assert_eq!(d.port, Some(22));
}

#[test]
fn parse_destination_bare_ipv6() {
    let d = Destination::parse("::1").unwrap();
    assert_eq!(d.user, None);
    assert_eq!(d.host, "::1");
    assert_eq!(d.port, None);
}

#[test]
fn parse_destination_bare_ipv6_with_scope() {
    let d = Destination::parse("fe80::1").unwrap();
    assert_eq!(d.user, None);
    assert_eq!(d.host, "fe80::1");
    assert_eq!(d.port, None);
}

#[test]
fn parse_destination_ipv6_unclosed_bracket() {
    assert!(Destination::parse("[::1").is_err());
}

#[test]
fn tunnel_command_default_opts() {
    let dest = Destination::parse("user@host").unwrap();
    let args = tunnel_command(
        &dest,
        "/tmp/local.sock",
        "/run/user/1000/gritty/ctl.sock",
        &vec![],
        false,
        false,
        30,
    );
    // From base_ssh_args
    assert!(args.contains(&"ConnectTimeout=30".to_string()));
    assert!(args.contains(&"BatchMode=yes".to_string()));
    // From TUNNEL_SSH_OPTS
    assert!(args.contains(&"ServerAliveInterval=3".to_string()));
    assert!(args.contains(&"StreamLocalBindUnlink=yes".to_string()));
    assert!(args.contains(&"ExitOnForwardFailure=yes".to_string()));
    assert!(!args.contains(&"ControlPath=none".to_string()));
    assert!(args.contains(&"ForwardAgent=no".to_string()));
    assert!(args.contains(&"ForwardX11=no".to_string()));
    // Tunnel flags and forward. Mux (non-isolated) mode keeps the remote
    // sleep so the mux client's lifetime tracks the forward.
    assert!(!args.contains(&"-N".to_string()));
    assert!(args.contains(&"-T".to_string()));
    assert!(args.contains(&"/tmp/local.sock:/run/user/1000/gritty/ctl.sock".to_string()));
    assert!(args.contains(&"user@host".to_string()));
    assert!(args.contains(&"exec sleep 2147483647".to_string()));
}

#[test]
fn tunnel_command_extra_opts() {
    let dest = Destination::parse("host:2222").unwrap();
    let args = tunnel_command(
        &dest,
        "/tmp/local.sock",
        "/tmp/remote.sock",
        &vec!["ProxyJump=bastion".to_string()],
        false,
        false,
        30,
    );
    assert!(args.contains(&"ProxyJump=bastion".to_string()));
    assert!(args.contains(&"-p".to_string()));
    assert!(args.contains(&"2222".to_string()));
}

#[test]
fn tunnel_command_isolate_control_path() {
    let dest = Destination::parse("host").unwrap();
    let args = tunnel_command(
        &dest,
        "/tmp/local.sock",
        "/tmp/remote.sock",
        &vec![],
        false,
        true,
        30,
    );
    assert!(args.contains(&"ControlPath=none".to_string()));
    // Isolated (default) path uses -N -- no remote sleep to leak across
    // half-open drops.
    assert!(args.contains(&"-N".to_string()));
    assert!(!args.iter().any(|a| a.contains("sleep")));
}

#[test]
fn local_socket_path_format() {
    // With hostname-based naming, connect uses just the host part
    let path = local_socket_path(DIR, "devbox");
    assert_eq!(file_name_of(&path).unwrap(), "connect-devbox.sock");

    let path = local_socket_path(DIR, "example.com");
    assert_eq!(file_name_of(&path).unwrap(), "connect-example.com.sock");

    // Custom name override
    let path = local_socket_path(DIR, "myproject");
    assert_eq!(file_name_of(&path).unwrap(), "connect-myproject.sock");
}

#[test]
fn connect_pid_path_format() {
    let path = connect_pid_path(DIR, "devbox");
    assert_eq!(file_name_of(&path).unwrap(), "connect-devbox.pid");

    let path = connect_pid_path(DIR, "example.com");
    assert_eq!(file_name_of(&path).unwrap(), "connect-example.com.pid");
}

#[test]
fn ssh_dest_with_user() {
    let d = Destination::parse("alice@example.com").unwrap();
    assert_eq!(d.ssh_dest(), "alice@example.com");
}

#[test]
fn ssh_dest_without_user() {
    let d = Destination::parse("example.com").unwrap();
    assert_eq!(d.ssh_dest(), "example.com");
}

#[test]
fn port_args_with_port() {
    let d = Destination::parse("host:9999").unwrap();
    assert_eq!(d.port_args(), vec!["-p", "9999"]);
}

#[test]
fn port_args_without_port() {
    let d = Destination::parse("host").unwrap();
    assert!(d.port_args().is_empty());
}

#[test]
fn shell_quote_simple() {
    // Safe strings pass through unquoted
    assert_eq!(shell_quote("hello"), "hello");
    assert_eq!(shell_quote("-N"), "-N");
    // shlex quotes some chars the old impl didn't (=, @, :, $), which is correct
    let q = shell_quote("ServerAliveInterval=3");
    assert!(q.contains("ServerAliveInterval") && q.contains("3"));
    let q = shell_quote("user@host");
    assert!(q.contains("user") && q.contains("host"));
}

#[test]
fn shell_quote_needs_quoting() {
    let q = shell_quote("hello world");
    assert!(q.starts_with('\'') || q.starts_with('"'));
    assert!(q.contains("hello world"));
    assert_eq!(shell_quote(""), "''");
    let q = shell_quote("it's");
    assert!(q.contains("it") && q.contains("s"));
}

#[test]
fn shell_quote_remote_cmd() {
    // The wrapped remote command contains spaces, quotes, semicolons —
    // must be single-quoted so $HOME expands on the remote side.
    let cmd = format!("PATH=\"{REMOTE_PATH_PREFIX}\"; gritty socket-path");
    let quoted = shell_quote(&cmd);
    assert!(quoted.starts_with('\''));
    assert!(quoted.ends_with('\''));
}

#[test]
fn format_command_tunnel() {
    let dest = Destination::parse("user@host").unwrap();
    let args = tunnel_command(
        &dest,
        "/tmp/local.sock",
        "$REMOTE_SOCK",
        &vec![],
        true,
        false,
        30,
    );
    let formatted = format_command("ssh", &args);
    assert!(formatted.contains("ServerAliveInterval=3"));
    assert!(!formatted.contains("ControlPath=none"));
    assert!(formatted.contains("ForwardAgent=no"));
    assert!(formatted.contains("-T"));
    assert!(formatted.contains("sleep 2147483647"));
    // Forward arg references $REMOTE_SOCK unquoted (no spaces, $ is safe)
    assert!(formatted.contains("/tmp/local.sock:$REMOTE_SOCK"));
    assert!(formatted.contains("user@host"));
}

#[test]
fn format_command_remote_exec() {
    let dest = Destination::parse("user@host:2222").unwrap();
    let args = remote_exec_command(&dest, "gritty socket-path", &vec![], true, 30, None, None);
    let formatted = format_command("ssh", &args);
    assert!(formatted.starts_with("ssh "));
    assert!(formatted.contains("-p 2222"));
    assert!(formatted.contains("ConnectTimeout=30"));
    assert!(formatted.contains("user@host"));
    // The wrapped command should be single-quoted (contains spaces)
    assert!(formatted.contains(&format!("PATH=\"{REMOTE_PATH_PREFIX}\"")));
}

#[test]
fn format_command_remote_exec_with_extra_opts() {
    let dest = Destination::parse("user@host").unwrap();
    let args = remote_exec_command(
        &dest,
        REMOTE_ENSURE_CMD,
        &vec!["ProxyJump=bastion".to_string()],
        true,
        30,
        None,
        None,
    );
    let formatted = format_command("ssh", &args);
    assert!(formatted.contains("ProxyJump=bastion"));
    assert!(formatted.contains("gritty socket-path"));
    assert!(formatted.contains("gritty server"));
}

#[test]
fn base_ssh_args_foreground() {
    let dest = Destination::parse("user@host:2222").unwrap();
    let args = base_ssh_args(&dest, &vec!["ProxyJump=bastion".to_string()], true, 30);
    assert!(args.contains(&"-p".to_string()));
    assert!(args.contains(&"2222".to_string()));
    assert!(args.contains(&"ProxyJump=bastion".to_string()));
    assert!(args.contains(&"ConnectTimeout=30".to_string()));
    assert!(!args.contains(&"BatchMode=yes".to_string()));
}

#[test]
fn base_ssh_args_background() {
    let dest = Destination::parse("host").unwrap();
    let args = base_ssh_args(&dest, &vec![], false, 30);
    assert!(args.contains(&"ConnectTimeout=30".to_string()));
    assert!(args.contains(&"BatchMode=yes".to_string()));
    assert!(!args.contains(&"-p".to_string()));
}

#[test]
fn base_ssh_args_zero_timeout() {
    let dest = Destination::parse("host").unwrap();
    let args = base_ssh_args(&dest, &vec![], false, 0);
    assert!(!args.iter().any(|a| a.starts_with("ConnectTimeout")));
    assert!(args.contains(&"BatchMode=yes".to_string()));
}

#[test]
fn socket_wait_deadline_values() {
    assert_eq!(socket_wait_deadline(0), 60);
    assert_eq!(socket_wait_deadline(30), 40);
    assert_eq!(socket_wait_deadline(3), 15);
}

#[test]
fn connect_lock_path_format() {
    let path = connect_lock_path(DIR, "devbox");
    assert_eq!(file_name_of(&path).unwrap(), "connect-devbox.lock");
}

#[test]
fn connect_dest_path_format() {
    let path = connect_dest_path(DIR, "devbox");
    assert_eq!(file_name_of(&path).unwrap(), "connect-devbox.dest");
}

#[test]
fn connection_socket_path_matches_local() {
    let public_path = connection_socket_path(DIR, "myhost");
    let internal_path = local_socket_path(DIR, "myhost");
    assert_eq!(public_path, internal_path);
}

#[test]
fn classify_exit_ssh_255_is_transient() {
    assert_eq!(classify_exit(status_with_code(255)), ExitClass::Transient);
}

#[test]
fn classify_exit_local_signal_kill_is_transient() {
    // code() == None -- typical of our own child.kill() after probe fail
    assert_eq!(classify_exit(status_killed_by_signal(9)), ExitClass::Transient);
    assert_eq!(classify_exit(status_killed_by_signal(15)), ExitClass::Transient);
}

#[test]
fn classify_exit_remote_signal_range_is_transient() {
    // ssh reports remote signal death as 128 + signum
    for code in 128..=159 {
        assert_eq!(
            classify_exit(status_with_code(code)),
            ExitClass::Transient,
            "code {code} should be transient"
        );
    }
}

#[test]
fn classify_exit_auth_config_codes_are_nontransient() {
    // Genuine failures we don't want to retry-hammer
    for code in [1, 2, 5, 127, 160, 254] {
        assert_eq!(
            classify_exit(status_with_code(code)),
            ExitClass::NonTransient,
            "code {code} should be non-transient"
        );
    }
}

#[test]
fn respawn_sleep_resets_after_healthy_child() {
    // Child lived 45s > HEALTHY_CHILD_THRESHOLD (30s): sleep resets to MIN
    let sleep = respawn_sleep(secs(16), secs(45));
    assert_eq!(sleep, MIN_RESPAWN_BACKOFF);
}

#[test]
fn respawn_sleep_keeps_growing_after_unhealthy_child() {
    let sleep = respawn_sleep(secs(8), secs(5));
    assert_eq!(sleep, secs(8));
}

#[test]
fn respawn_sleep_threshold_is_inclusive() {
    // exactly HEALTHY_CHILD_THRESHOLD: counts as healthy
    let sleep = respawn_sleep(secs(16), HEALTHY_CHILD_THRESHOLD);
    assert_eq!(sleep, MIN_RESPAWN_BACKOFF);
    // just under threshold: unhealthy, keeps current backoff
    let sleep = respawn_sleep(
        secs(16),
        HEALTHY_CHILD_THRESHOLD - 1,
    );
    assert_eq!(sleep, secs(16));
}

#[test]
fn double_backoff_doubles_and_caps() {
    assert_eq!(double_backoff(MIN_RESPAWN_BACKOFF), secs(2));
    assert_eq!(double_backoff(secs(8)), secs(16));
    assert_eq!(double_backoff(MAX_RESPAWN_BACKOFF), MAX_RESPAWN_BACKOFF);
}

#[test]
fn double_backoff_climbs_from_zero() {
    // The we_killed path sleeps for ZERO; the backoff must still advance
    // to a full MIN step, not collapse to zero (the divergence that the
    // discarded next_backoff second return would have reintroduced).
    assert_eq!(double_backoff(0), secs(2));
}

// --- ensure_remote_ready output parsing -------------------------------

#[test]
fn parse_ensure_remote_two_lines() {
    let (sock, ver) = parse_ensure_remote_output("/run/user/1000/gritty/ctl.sock\n20").unwrap();
    assert_eq!(sock, "/run/user/1000/gritty/ctl.sock");
    assert_eq!(ver, Some(20));
}

#[test]
fn parse_ensure_remote_socket_only() {
    // Older remotes that don't emit a version line.
    let (sock, ver) = parse_ensure_remote_output("/tmp/gritty/ctl.sock").unwrap();
    assert_eq!(sock, "/tmp/gritty/ctl.sock");
    assert_eq!(ver, None);
}

#[test]
fn parse_ensure_remote_garbage_version_ignored() {
    let (sock, ver) = parse_ensure_remote_output("/tmp/ctl.sock\nnot-a-number").unwrap();
    assert_eq!(sock, "/tmp/ctl.sock");
    assert_eq!(ver, None);
}

#[test]
fn parse_ensure_remote_empty_fails() {
    let err = parse_ensure_remote_output("").unwrap_err();
    assert!(err.message().contains("empty socket path"), "{err:?}");
}

#[test]
fn parse_ensure_remote_err_line_surfaces_reason() {
    let out = "/run/user/1000/gritty/ctl.sock\n20\nERR:error: protocol version mismatch: local=20 remote=19; run `gritty restart`";
    let err = parse_ensure_remote_output(out).unwrap_err();
    let msg = err.message();
    assert!(msg.contains("protocol version mismatch"), "{msg}");
    assert!(msg.contains("gritty restart"), "{msg}");
    assert!(msg.contains("remote daemon is unusable"), "{msg}");
}

#[test]
fn parse_ensure_remote_err_line_with_no_reason() {
    let err = parse_ensure_remote_output("/tmp/ctl.sock\n20\nERR:").unwrap_err();
    let msg = err.message();
    assert!(msg.contains("remote daemon is unusable"), "{msg}");
    // Don't emit a dangling colon when the reason is empty.
    assert!(!msg.contains(": \n"), "{msg}");
}

#[test]
fn parse_ensure_remote_trailing_non_err_line_ignored() {
    // A spurious third line without the ERR: prefix should not be treated
    // as an error -- it's probably a shell profile leaking into stdout.
    let (sock, ver) = parse_ensure_remote_output("/tmp/ctl.sock\n20\nsome noise").unwrap();
    assert_eq!(sock, "/tmp/ctl.sock");
    assert_eq!(ver, Some(20));
}

#[test]
fn version_gate_accepts_matching_version() {
    assert!(check_remote_protocol_version(PROTOCOL_VERSION, false).is_ok());
}

#[test]
fn version_gate_rejects_mismatch() {
    let rv = PROTOCOL_VERSION.wrapping_add(1);
    let err = check_remote_protocol_version(rv, false).unwrap_err();
    assert!(err.contains(&rv.to_string()), "message names remote version: {err}");
    assert!(
        err.contains(&PROTOCOL_VERSION.to_string()),
        "message names local version: {err}"
    );
    assert!(err.contains("--ignore-version-mismatch"), "message is actionable: {err}");
}

#[test]
fn version_gate_ignore_flag_downgrades_to_warn() {
    let rv = PROTOCOL_VERSION.wrapping_add(1);
    // With the escape hatch set, a mismatch must not bail.
    assert!(check_remote_protocol_version(rv, true).is_ok());
}

#[test]
fn probe_stale_no_files() {
    // No files at all: nobody holds the lock and nothing answers.
    let status = probe_tunnel_status(false, false);
    assert_eq!(status, TunnelStatus::Stale);
}

#[test]
fn probe_needs_the_lock_and_the_socket() {
    assert_eq!(probe_tunnel_status(true, true), TunnelStatus::Healthy);
    assert_eq!(probe_tunnel_status(true, false), TunnelStatus::Reconnecting);
    assert_eq!(probe_tunnel_status(false, true), TunnelStatus::Stale);
}

#[test]
fn lock_identity_detects_replaced_inode() {
    let a_id = LockIdentity { dev: 1, ino: 100 };
    assert!(a_id.matches_path(Some(a_id)), "A should own the path it just created");
    assert!(lock_still_owned(Some(a_id), Some(a_id)));

    // Someone unlinks the lock path out from under A.
    assert!(!a_id.matches_path(None), "A's inode is gone; it no longer owns the path");
    assert!(!lock_still_owned(Some(a_id), None));

    // Supervisor B acquires a *fresh* inode at the same path.
    let b_id = LockIdentity { dev: 1, ino: 101 };
    assert_ne!(a_id, b_id);
    assert!(!a_id.matches_path(Some(b_id)), "A still does not own the path");
    assert!(b_id.matches_path(Some(b_id)), "B is the real owner");
    assert!(!may_remove_files(Some(a_id), Some(b_id)), "A must leave B's files alone");
    assert!(may_remove_files(Some(b_id), Some(b_id)));
}

#[test]
fn lock_still_owned_treats_unknown_as_owned() {
    // A failed startup fstat must not cause the supervisor to self-destruct.
    assert!(lock_still_owned(None, None));
}

#[test]
fn enumerate_tunnels_empty_dir() {
    let names = enumerate_tunnels(&vec![]);
    assert!(names.is_empty());
    let other = vec!["ctl.sock".to_string(), "connect-.lock".to_string()];
    assert!(!enumerate_tunnels(&other).contains(&"ctl.sock".to_string()));
}
