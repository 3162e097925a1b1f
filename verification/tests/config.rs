use gritty::config::{
    clamp_heartbeat, client_name_for, config_path, config_path_in, config_status,
    default_client_name, parse_linger, ConfigFile, ConfigRead, ConfigStatus, Defaults,
    SessionSettings, TunnelDefaults, DEFAULT_CONFIG,
};
use gritty::protocol::{IDLE_EVICT_SAFETY_MARGIN, IDLE_EVICT_TIMEOUT};

fn idle_evict_ceiling_secs() -> u64 {
    IDLE_EVICT_TIMEOUT - IDLE_EVICT_SAFETY_MARGIN
}

fn flag(t: &toml::Table, key: &str) -> Option<bool> {
    t.get(key).and_then(|v| v.as_bool())
}

fn number(t: &toml::Table, key: &str) -> Option<u64> {
    t.get(key).and_then(|v| v.as_integer()).map(|n| n as u64)
}

fn words(t: &toml::Table, key: &str) -> Option<String> {
    t.get(key).and_then(|v| v.as_str()).map(String::from)
}

fn list(t: &toml::Table, key: &str) -> Option<Vec<String>> {
    let items = t.get(key)?.as_array()?;
    Some(items.iter().map(|v| v.as_str().unwrap().to_string()).collect())
}

fn section(t: &toml::Table) -> Defaults {
    Defaults {
        forward_agent: flag(t, "forward-agent"),
        forward_open: flag(t, "forward-open"),
        no_escape: flag(t, "no-escape"),
        oauth_redirect: flag(t, "oauth-redirect"),
        oauth_timeout: number(t, "oauth-timeout"),
        heartbeat_interval: number(t, "heartbeat-interval"),
        heartbeat_timeout: number(t, "heartbeat-timeout"),
        ring_buffer_size: number(t, "ring-buffer-size"),
        oauth_tunnel_idle_timeout: number(t, "oauth-tunnel-idle-timeout"),
        client_name: words(t, "client-name"),
        linger: words(t, "linger"),
        linger_unnamed: words(t, "linger-unnamed"),
        aliases: list(t, "aliases"),
        tunnel: t.get("tunnel").and_then(|v| v.as_table()).map(|t| TunnelDefaults {
            ssh_options: list(t, "ssh-options"),
            no_server_start: flag(t, "no-server-start"),
            isolate_control_path: flag(t, "isolate-control-path"),
            connect_timeout: number(t, "connect-timeout"),
        }),
    }
}

/// The configuration that a file with this text holds.
fn config(text: &str) -> ConfigFile {
    let table: toml::Table = text.parse().unwrap();
    let mut cfg = ConfigFile::default();
    if let Some(d) = table.get("defaults").and_then(|v| v.as_table()) {
        cfg.defaults = section(d);
    }
    if let Some(hosts) = table.get("host").and_then(|v| v.as_table()) {
        for (name, host) in hosts {
            cfg.set_host(name, section(host.as_table().unwrap()));
        }
    }
    cfg
}

#[test]
fn empty_config_returns_defaults() {
    let cfg = config("");
    let s = cfg.resolve_session(None);
    assert_eq!(s, SessionSettings::default());
}

#[test]
fn a_new_file_of_settings_sets_nothing() {
    let cfg = config(DEFAULT_CONFIG);
    assert_eq!(cfg.resolve_session(None), SessionSettings::default());
    let set: String = DEFAULT_CONFIG
        .lines()
        .filter(|l| !l.contains("gritty settings") && !l.contains("the section of the host"))
        .map(|l| format!("{}\n", l.trim_start_matches("# ")))
        .collect();
    let cfg = config(&set);
    let mut shown = cfg.resolve_session(None);
    assert_eq!(shown.client_name, "laptop");
    shown.client_name = SessionSettings::default().client_name;
    assert_eq!(shown, SessionSettings::default());
    assert_eq!(cfg.canonical_host("devbox.example.com"), "devbox");
}

#[test]
fn defaults_apply_when_no_host() {
    let cfg = config(
        r#"
        [defaults]
        forward-agent = true
        forward-open = true
        "#,
    );
    let s = cfg.resolve_session(None);
    assert!(s.forward_agent);
    assert!(s.forward_open);
    assert!(!s.no_escape);
}

#[test]
fn host_overrides_defaults() {
    let cfg = config(
        r#"
        [defaults]
        forward-agent = true
        forward-open = false

        [host.devbox]
        forward-agent = false
        forward-open = true
        "#,
    );
    let s = cfg.resolve_session(Some("devbox"));
    assert!(!s.forward_agent);
    assert!(s.forward_open);
}

#[test]
fn unknown_host_uses_defaults() {
    let cfg = config(
        r#"
        [defaults]
        forward-agent = true

        [host.devbox]
        forward-open = true
        "#,
    );
    let s = cfg.resolve_session(Some("unknown"));
    assert!(s.forward_agent);
    assert!(s.forward_open);
}

#[test]
fn host_partial_override_inherits_defaults() {
    let cfg = config(
        r#"
        [defaults]
        forward-agent = true
        no-escape = true

        [host.devbox]
        forward-open = true
        "#,
    );
    let s = cfg.resolve_session(Some("devbox"));
    assert!(s.forward_agent); // from defaults
    assert!(s.forward_open); // from host
    assert!(s.no_escape); // from defaults
}

#[test]
fn tunnel_settings_merge_ssh_options() {
    let cfg = config(
        r#"
        [defaults.tunnel]
        ssh-options = ["Compression=yes"]

        [host.devbox.tunnel]
        ssh-options = ["IdentityFile=~/.ssh/key"]
        "#,
    );
    let c = cfg.resolve_tunnel("devbox");
    // Host-specific first, then defaults
    assert_eq!(c.ssh_options, vec!["IdentityFile=~/.ssh/key", "Compression=yes"]);
}

#[test]
fn tunnel_settings_no_host_ssh_options() {
    let cfg = config(
        r#"
        [defaults.tunnel]
        ssh-options = ["Compression=yes"]
        "#,
    );
    let c = cfg.resolve_tunnel("unknown");
    assert_eq!(c.ssh_options, vec!["Compression=yes"]);
}

#[test]
fn tunnel_no_server_start() {
    let cfg = config(
        r#"
        [host.prod.tunnel]
        no-server-start = true
        "#,
    );
    let c = cfg.resolve_tunnel("prod");
    assert!(c.no_server_start);
    assert!(!cfg.resolve_tunnel("devbox").no_server_start);
}

#[test]
fn tunnel_isolate_control_path() {
    let cfg = config(
        r#"
        [host.mux.tunnel]
        isolate-control-path = false
        "#,
    );
    // Default is true; explicit false opts back into ControlMaster mux.
    assert!(cfg.resolve_tunnel("devbox").isolate_control_path);
    assert!(!cfg.resolve_tunnel("mux").isolate_control_path);
}

#[test]
fn tunnel_connect_timeout() {
    let cfg = config(
        r#"
        [host.prod.tunnel]
        connect-timeout = 10
        "#,
    );
    assert_eq!(cfg.resolve_tunnel("prod").connect_timeout, 10);
    assert_eq!(cfg.resolve_tunnel("devbox").connect_timeout, 30);
}

#[test]
fn config_path_ends_with_expected_suffix() {
    // Can't safely set env vars in tests (Rust 2024), but we can verify the
    // function returns a path ending in gritty/config.toml
    let p = config_path();
    assert!(p.ends_with("gritty/config.toml"), "got: {}", p);
}

#[test]
fn oauth_settings_defaults() {
    let cfg = config("");
    let s = cfg.resolve_session(None);
    assert!(s.oauth_redirect);
    assert_eq!(s.oauth_timeout, 180);
}

#[test]
fn oauth_settings_configurable() {
    let cfg = config(
        r#"
        [defaults]
        oauth-redirect = false
        oauth-timeout = 60

        [host.devbox]
        oauth-redirect = true
        oauth-timeout = 300
        "#,
    );
    let s = cfg.resolve_session(None);
    assert!(!s.oauth_redirect);
    assert_eq!(s.oauth_timeout, 60);

    let s = cfg.resolve_session(Some("devbox"));
    assert!(s.oauth_redirect);
    assert_eq!(s.oauth_timeout, 300);
}

#[test]
fn oauth_settings_host_partial_override() {
    let cfg = config(
        r#"
        [defaults]
        oauth-timeout = 90

        [host.devbox]
        oauth-redirect = false
        "#,
    );
    let s = cfg.resolve_session(Some("devbox"));
    assert!(!s.oauth_redirect); // from host
    assert_eq!(s.oauth_timeout, 90); // from defaults
}

#[test]
fn oauth_tunnel_idle_timeout_configurable() {
    let cfg = config(
        r#"
        [defaults]
        oauth-tunnel-idle-timeout = 10

        [host.devbox]
        oauth-tunnel-idle-timeout = 30
        "#,
    );
    assert_eq!(cfg.resolve_session(None).oauth_tunnel_idle_timeout, 10);
    assert_eq!(cfg.resolve_session(Some("devbox")).oauth_tunnel_idle_timeout, 30);
    assert_eq!(cfg.resolve_session(Some("unknown")).oauth_tunnel_idle_timeout, 10);
}

#[test]
fn canonical_host_resolves_alias() {
    let cfg = config(
        r#"
        [host.foo]
        aliases = ["foo.bar.com", "f"]
        "#,
    );
    assert_eq!(cfg.canonical_host("foo.bar.com"), "foo");
    assert_eq!(cfg.canonical_host("f"), "foo");
    assert_eq!(cfg.canonical_host("foo"), "foo");
    assert_eq!(cfg.canonical_host("unrelated"), "unrelated");
}

// A real `[host.*]` key and the literal `local` must never be remapped,
// even if some host claims them as aliases -- otherwise a config typo
// could hijack every command targeting the local daemon.
#[test]
fn canonical_host_exact_names_win_over_aliases() {
    let cfg = config(
        r#"
        [host.thief]
        aliases = ["local", "victim"]

        [host.victim]
        forward-agent = true
        "#,
    );
    assert_eq!(cfg.canonical_host("local"), "local");
    assert_eq!(cfg.canonical_host("victim"), "victim");
}

// An alias claimed by multiple hosts is ambiguous: resolve to neither and
// use the typed name literally (a warning is printed on the warn path).
#[test]
fn canonical_host_ambiguous_alias_unresolved() {
    let cfg = config(
        r#"
        [host.a]
        aliases = ["dup"]

        [host.b]
        aliases = ["dup"]
        "#,
    );
    assert_eq!(cfg.canonical_host("dup"), "dup");
}

#[test]
fn alias_destination_is_first_alias() {
    let cfg = config(
        r#"
        [host.foo]
        aliases = ["user@foo.bar.com:2222", "f"]

        [host.bare]
        forward-agent = true
        "#,
    );
    assert_eq!(cfg.alias_destination("foo"), Some("user@foo.bar.com:2222".to_string()));
    assert_eq!(cfg.alias_destination("bare"), None);
    assert_eq!(cfg.alias_destination("unknown"), None);
}

fn status_name(s: &ConfigStatus) -> &'static str {
    match s {
        ConfigStatus::NotFound => "NotFound",
        ConfigStatus::Valid(_) => "Valid",
        ConfigStatus::Invalid(_) => "Invalid",
    }
}

#[test]
fn tunnel_session_settings_resolved() {
    let cfg = config(
        r#"
        [defaults]
        forward-agent = true

        [host.devbox]
        forward-open = true
        "#,
    );
    let c = cfg.resolve_tunnel("devbox");
    assert!(c.session.forward_agent);
    assert!(c.session.forward_open);
}

#[test]
fn heartbeat_timeout_clamped_to_avoid_idle_evict() {
    let cfg = config(
        r#"
        [defaults]
        heartbeat-interval = 30
        heartbeat-timeout = 100
        "#,
    );
    let s = cfg.resolve_session(None);
    assert!(
        s.heartbeat_interval + s.heartbeat_timeout <= idle_evict_ceiling_secs(),
        "interval={} timeout={} ceiling={}",
        s.heartbeat_interval,
        s.heartbeat_timeout,
        idle_evict_ceiling_secs()
    );
    assert_eq!(s.heartbeat_timeout, idle_evict_ceiling_secs() - 30);
}

// Guard: the built-in defaults must always fit under the idle-evict
// ceiling without clamping. If IDLE_EVICT_TIMEOUT is ever lowered, this
// test forces the defaults to be reconsidered in the same change.
#[test]
fn heartbeat_defaults_fit_under_idle_evict() {
    let cfg = config("");
    let s = cfg.resolve_session(None);
    assert!(s.heartbeat_interval + s.heartbeat_timeout <= idle_evict_ceiling_secs());
    assert_eq!(s.heartbeat_interval, 10);
    assert_eq!(s.heartbeat_timeout, 60);
}

#[test]
fn parse_linger_accepts_never_and_durations() {
    assert_eq!(parse_linger("never").unwrap(), 0);
    assert_eq!(parse_linger("Never").unwrap(), 0);
    assert_eq!(parse_linger("30m").unwrap(), 30 * 60);
    assert_eq!(parse_linger("1h").unwrap(), 3600);
    assert_eq!(parse_linger("90").unwrap(), 90);
    assert!(parse_linger("nope").is_err());
    assert!(parse_linger("").is_err());
}

#[test]
fn parse_linger_rejects_zero() {
    // 0 would alias to the `never` sentinel -- the opposite of what
    // someone writing 0 means -- so reject it explicitly.
    for z in ["0", "0s", "0m", "0h", "0d"] {
        let e = parse_linger(z).unwrap_err();
        assert!(e.contains("never"), "wrong error for {z}: {e}");
    }
}

#[test]
fn linger_defaults_to_never() {
    let cfg = config("");
    let s = cfg.resolve_session(None);
    assert_eq!(s.linger, 0);
    assert_eq!(s.linger_unnamed, 0);
}

#[test]
fn linger_unnamed_falls_back_to_linger() {
    let cfg = config(
        r#"
        [defaults]
        linger = "1h"
    "#,
    );
    let s = cfg.resolve_session(None);
    assert_eq!(s.linger, 3600);
    assert_eq!(s.linger_unnamed, 3600);
}

#[test]
fn linger_unnamed_overrides_linger() {
    let cfg = config(
        r#"
        [defaults]
        linger = "never"
        linger-unnamed = "30m"
    "#,
    );
    let s = cfg.resolve_session(None);
    assert_eq!(s.linger, 0);
    assert_eq!(s.linger_unnamed, 1800);
}

#[test]
fn linger_per_host_overrides_default() {
    let cfg = config(
        r#"
        [defaults]
        linger = "1h"
        [host.work]
        linger = "never"
    "#,
    );
    assert_eq!(cfg.resolve_session(None).linger, 3600);
    assert_eq!(cfg.resolve_session(Some("work")).linger, 0);
}

#[test]
fn host_linger_shields_unnamed_from_defaults() {
    // Precedence: host.linger_unnamed > host.linger >
    // defaults.linger_unnamed > defaults.linger. Setting
    // `[host.prod] linger = "never"` must protect prod's unnamed
    // sessions even when a global linger-unnamed fuse is set.
    let cfg = config(
        r#"
        [defaults]
        linger-unnamed = "30m"
        [host.prod]
        linger = "never"
    "#,
    );
    let s = cfg.resolve_session(Some("prod"));
    assert_eq!(s.linger, 0);
    assert_eq!(s.linger_unnamed, 0);
    // Other hosts still get the global unnamed fuse.
    assert_eq!(cfg.resolve_session(None).linger_unnamed, 1800);
}

#[test]
fn linger_malformed_host_value_falls_through_to_default() {
    // A typo at the host layer should warn and inherit the valid
    // [defaults] value, not silently disable the feature.
    let cfg = config(
        r#"
        [defaults]
        linger = "1h"
        [host.work]
        linger = "1 h"
    "#,
    );
    let s = cfg.resolve_session(Some("work"));
    assert_eq!(s.linger, 3600);
}

#[test]
fn linger_malformed_default_falls_back_to_never() {
    let cfg = config(
        r#"
        [defaults]
        linger = "30x"
    "#,
    );
    let s = cfg.resolve_session(None);
    assert_eq!(s.linger, 0);
}

// A large heartbeat_interval must not drive the resolved timeout below
// the interval (or to 0) via the idle-evict ceiling clamp. Exercise a
// range that includes values above the old un-capped behavior's break
// point (~40s) and assert all three invariants hold for every one.
#[test]
fn heartbeat_interval_capped_so_timeout_stays_valid() {
    let ceiling = idle_evict_ceiling_secs();
    for interval in [1, 10, 40, 41, 60, 80, 1000] {
        let cfg =
            config(&format!("[defaults]\nheartbeat-interval = {interval}\n"));
        let s = cfg.resolve_session(None);
        assert!(s.heartbeat_interval >= 1, "interval={interval}");
        assert!(
            s.heartbeat_timeout > s.heartbeat_interval,
            "interval={interval}: timeout {} must exceed interval {}",
            s.heartbeat_timeout,
            s.heartbeat_interval,
        );
        assert!(
            s.heartbeat_interval + s.heartbeat_timeout <= ceiling,
            "interval={interval}: {} + {} > ceiling {ceiling}",
            s.heartbeat_interval,
            s.heartbeat_timeout,
        );
    }
}

#[test]
fn clamp_heartbeat_in_range_is_silent() {
    let h = clamp_heartbeat(10, 60);
    let (iv, to, warnings) = (h.interval, h.timeout, h.warnings);
    assert_eq!((iv, to), (10, 60));
    assert!(warnings.is_empty(), "in-range values must not warn: {warnings:?}");
}

// The warning text must name the config keys in kebab-case: the structs use
// rename_all = "kebab-case" + deny_unknown_fields, so an underscore spelling
// copied back into the config is an unknown key that discards the whole file.
#[test]
fn clamp_heartbeat_warnings_use_kebab_case_keys() {
    let warnings = clamp_heartbeat(10_000, 1).warnings;
    assert!(!warnings.is_empty(), "out-of-range values must warn");
    for w in &warnings {
        assert!(
            !w.contains("heartbeat_interval") && !w.contains("heartbeat_timeout"),
            "warning must not use underscore key names: {w}"
        );
        assert!(
            w.contains("heartbeat-interval") || w.contains("heartbeat-timeout"),
            "warning must name a kebab-case config key: {w}"
        );
    }
}

#[test]
fn missing_file_returns_default() {
    let (cfg, warning) = ConfigFile::load_from("/nonexistent/config.toml", ConfigRead::Missing);
    assert_eq!(cfg.resolve_session(None), SessionSettings::default());
    assert_eq!(warning, None);
}

#[test]
fn config_status_reports_invalid_for_bad_key() {
    let read = ConfigRead::Malformed("unknown field `forward_agent`".to_string());
    assert!(
        matches!(config_status(read), ConfigStatus::Invalid(_)),
        "underscore key must parse as Invalid, not Valid"
    );
}

#[test]
fn config_status_reports_valid_and_not_found() {
    assert!(matches!(config_status(ConfigRead::Missing), ConfigStatus::NotFound));

    let cfg = config("[host.devbox]\nforward-agent = true\n");
    match config_status(ConfigRead::Parsed(cfg)) {
        ConfigStatus::Valid(cfg) => assert_eq!(cfg.host.len(), 1),
        other => panic!("expected Valid, got {}", status_name(&other)),
    }
}

#[test]
fn a_broken_file_is_ignored_with_a_warning() {
    let read = ConfigRead::Malformed("expected `=`".to_string());
    let (cfg, warning) = ConfigFile::load_from("/home/me/config.toml", read);
    assert_eq!(cfg.resolve_session(None), SessionSettings::default());
    let warning = warning.unwrap();
    assert!(warning.contains("/home/me/config.toml"), "{warning}");
    assert!(warning.contains("expected `=`"), "{warning}");

    let read = ConfigRead::Unreadable("permission denied".to_string());
    let (_, warning) = ConfigFile::load_from("/home/me/config.toml", read);
    assert!(warning.unwrap().contains("permission denied"));

    let read = ConfigRead::Unreadable("permission denied".to_string());
    match config_status(read) {
        ConfigStatus::Invalid(why) => assert!(why.contains("permission denied"), "{why}"),
        other => panic!("expected Invalid, got {}", status_name(&other)),
    }
}

#[test]
fn settings_live_in_the_given_directory() {
    assert_eq!(config_path_in(Some("/etc/gritty".to_string())), "/etc/gritty/config.toml");
}

#[test]
fn client_name_comes_from_the_machine() {
    assert_eq!(client_name_for(Some("laptop".to_string())), "laptop");
    assert_eq!(client_name_for(Some("a/b".to_string())), "unknown");
    assert_eq!(client_name_for(Some(String::new())), "unknown");
    assert_eq!(client_name_for(None), "unknown");
    let own = default_client_name();
    assert!(!own.is_empty());
    assert_eq!(config("").resolve_session(None).client_name, own);
}

#[test]
fn a_tunnel_has_the_settings_of_a_session() {
    let cfg = config(
        r#"
        [defaults]
        no-escape = true
        linger = "1h"
        heartbeat-interval = 7

        [defaults.tunnel]
        ssh-options = ["Compression=yes", "Port=22"]
        connect-timeout = 9

        [host.devbox]
        client-name = "desk"
        forward-agent = true

        [host.devbox.tunnel]
        ssh-options = ["Port=2222"]
        no-server-start = true
        "#,
    );
    for host in ["devbox", "elsewhere"] {
        for own in ["laptop", "tower"] {
            let (session, _) = cfg.resolve_session_for(Some(host), own);
            assert_eq!(cfg.resolve_tunnel_for(host, own).session, session);
        }
        assert_eq!(cfg.resolve_tunnel(host).session, cfg.resolve_session(Some(host)));
    }
    let t = cfg.resolve_tunnel_for("devbox", "laptop");
    assert_eq!(t.session.client_name, "desk");
    assert!(t.session.forward_agent && t.session.no_escape);
    assert_eq!((t.session.linger, t.session.heartbeat_interval), (3600, 7));
    assert_eq!(t.ssh_options, ["Port=2222", "Compression=yes", "Port=22"]);
    assert_eq!((t.connect_timeout, t.isolate_control_path, t.no_server_start), (9, true, true));
    let t = cfg.resolve_tunnel_for("elsewhere", "laptop");
    assert_eq!(t.session.client_name, "laptop");
    assert_eq!(t.ssh_options, ["Compression=yes", "Port=22"]);
    assert!(!t.no_server_start);
}

#[test]
fn malformed_linger_warns_and_names_the_key() {
    let cfg = config("[defaults]\nlinger = \"30x\"\n[host.work]\nlinger-unnamed = \"1 h\"\n");
    let warnings = cfg.session_warnings(Some("work"));
    assert_eq!(warnings.len(), 2, "{warnings:?}");
    let (_, same) = cfg.resolve_session_for(Some("work"), "laptop");
    assert_eq!(warnings, same);
    assert!(cfg.session_warnings(None).len() == 1);
    assert!(config("").session_warnings(None).is_empty());
}

#[test]
fn ambiguous_alias_warns_once_typed() {
    let cfg = config("[host.a]\naliases = [\"dup\"]\n[host.b]\naliases = [\"dup\"]\n");
    assert_eq!(cfg.canonical_host_quiet("dup"), "dup");
    let warning = cfg.canonical_host_warning("dup").unwrap();
    assert!(warning.contains("dup"), "{warning}");
    assert_eq!(cfg.canonical_host_warning("a"), None);
    assert_eq!(cfg.canonical_host_warning("local"), None);
}

#[test]
fn canonical_names_are_final() {
    let cfg = config("[host.foo]\naliases = [\"f\", \"foo.bar.com\"]\n");
    for typed in ["f", "foo", "foo.bar.com", "other", "local"] {
        let once = cfg.canonical_host(typed);
        assert_eq!(cfg.canonical_host(&once), once);
    }
}

#[test]
fn clamping_a_second_time_changes_nothing() {
    for (i, t) in [(0, 0), (10, 60), (1000, 1), (40, 41), (5, 500)] {
        let once = clamp_heartbeat(i, t);
        let twice = clamp_heartbeat(once.interval, once.timeout);
        assert_eq!((once.interval, once.timeout), (twice.interval, twice.timeout));
        assert!(twice.warnings.is_empty());
    }
}

#[test]
fn last_set_of_a_host_wins() {
    let mut cfg = ConfigFile::default();
    let mut first = Defaults::default();
    first.no_escape = Some(true);
    cfg.set_host("dev", first);
    cfg.set_host("dev", Defaults::default());
    assert_eq!(cfg.host.len(), 1);
    assert!(!cfg.resolve_session(Some("dev")).no_escape);
}

#[test]
fn the_users_file_is_loaded_like_any_other() {
    let (cfg, warning) = ConfigFile::load(ConfigRead::Missing);
    assert_eq!(cfg.resolve_session(None), SessionSettings::default());
    assert_eq!(warning, None);
    let (_, warning) = ConfigFile::load(ConfigRead::Malformed("line 1".to_string()));
    let warning = warning.unwrap();
    assert!(warning.contains(&config_path()) && warning.ends_with(": line 1"), "{warning}");
    let (cfg, _) = ConfigFile::load(ConfigRead::Parsed(config("[defaults]\nno-escape = true\n")));
    assert!(cfg.resolve_session(None).no_escape);
}

#[test]
fn a_key_means_the_same_in_either_section() {
    let keys = r#"
        forward-agent = true
        oauth-timeout = 7
        heartbeat-interval = 5
        heartbeat-timeout = 20
        client-name = "me"
        linger = "1h"
        "#;
    let shared = config(&format!("[defaults]{keys}"));
    let own = config(&format!("[host.devbox]{keys}"));
    let contrary = config(&format!(
        "[host.devbox]{keys}[defaults]\nforward-agent = false\noauth-timeout = 9\nlinger = \"2h\"\n"
    ));
    let s = shared.resolve_session(Some("devbox"));
    assert_eq!(s, own.resolve_session(Some("devbox")));
    assert_eq!(s, contrary.resolve_session(Some("devbox")));
    assert_eq!((s.oauth_timeout, s.linger, s.client_name.as_str()), (7, 3600, "me"));
}
