use gritty::client::{forward_socket_path, parse_forward_socket_name};
use gritty::config::{ConfigFile, Defaults};
use gritty::durations::{format_age, format_idle, parse_duration};
use gritty::forward::{
    ambiguous_host_guard, busy_port_hint, candidate_fallback_label, forward_args, in_session_hint,
    live_forward_sockets, parse_port_spec, FoundFile,
};
use gritty::paths::file_name_of;
use gritty::protocol::{FWD_ERR_BIND_PREFIX, FWD_ERR_SERVER_BIND};
use gritty::service::parse_editor;
use gritty::sessions::format_timestamp;
use gritty::target::{
    parse_host_or_local, parse_target, resolve_ctl_path, server_auto_start_args,
    split_optional_target, split_target,
};

const DIR: &str = "/run/user/1000/gritty";

/// An empty config: parse_target falls through to a raw split.
fn no_aliases() -> ConfigFile {
    ConfigFile::default()
}

/// A config where `foo.bar.com` aliases the connection name `foo`.
fn foo_alias() -> ConfigFile {
    let mut cfg = ConfigFile::default();
    let mut foo = Defaults::default();
    foo.aliases = Some(vec!["foo.bar.com".to_string()]);
    cfg.set_host("foo", foo);
    cfg
}

/// A file in the socket directory, with or without somebody listening.
fn found(name: &str, alive: bool) -> FoundFile {
    FoundFile { name: name.to_string(), alive }
}

#[test]
fn parse_target_host_only() {
    let (host, session) = parse_target(&no_aliases(), "local");
    assert_eq!(host, "local");
    assert_eq!(session, None);
}

#[test]
fn parse_target_host_and_session() {
    let (host, session) = parse_target(&no_aliases(), "local:work");
    assert_eq!(host, "local");
    assert_eq!(session, Some("work".to_string()));
}

#[test]
fn parse_target_canonicalizes_alias_host() {
    let cfg = foo_alias();
    assert_eq!(parse_target(&cfg, "foo.bar.com:work"), parse_target(&cfg, "foo:work"));
    let (host, session) = parse_target(&cfg, "foo.bar.com:work");
    assert_eq!(host, "foo");
    assert_eq!(session, Some("work".to_string()));
    // The session part is never alias-resolved.
    let (host, session) = parse_target(&cfg, "local:foo.bar.com");
    assert_eq!(host, "local");
    assert_eq!(session, Some("foo.bar.com".to_string()));
}

// split_target is the raw core for pre-canonicalized strings -- it must
// never alias-resolve, or transfer targets would be remapped twice.
#[test]
fn split_target_does_not_alias() {
    let (host, _) = split_target("foo.bar.com:work");
    assert_eq!(host, "foo.bar.com");
}

#[test]
fn split_optional_target_none_defaults_to_local() {
    assert_eq!(split_optional_target(&no_aliases(), None), ("local".to_string(), None));
}

#[test]
fn split_optional_target_splits_present_target() {
    let cfg = no_aliases();
    assert_eq!(
        split_optional_target(&cfg, Some("local:work")),
        ("local".to_string(), Some("work".to_string()))
    );
    assert_eq!(split_optional_target(&cfg, Some("local")), ("local".to_string(), None));
}

#[test]
fn split_optional_target_canonicalizes_alias() {
    assert_eq!(
        split_optional_target(&foo_alias(), Some("foo.bar.com:0")),
        ("foo".to_string(), Some("0".to_string()))
    );
}

#[test]
fn parse_host_or_local_none_defaults_to_local() {
    assert_eq!(parse_host_or_local(&no_aliases(), None), "local");
}

#[test]
fn parse_host_or_local_canonicalizes_alias() {
    assert_eq!(parse_host_or_local(&foo_alias(), Some("foo.bar.com")), "foo");
}

#[test]
fn parse_target_remote_and_id() {
    let (host, session) = parse_target(&no_aliases(), "devbox:0");
    assert_eq!(host, "devbox");
    assert_eq!(session, Some("0".to_string()));
}

#[test]
fn parse_target_colon_in_session_name() {
    let (host, session) = parse_target(&no_aliases(), "local:my:weird:name");
    assert_eq!(host, "local");
    assert_eq!(session, Some("my:weird:name".to_string()));
}

#[test]
fn parse_target_empty_session() {
    let (host, session) = parse_target(&no_aliases(), "local:");
    assert_eq!(host, "local");
    assert_eq!(session, None);
}

#[test]
fn resolve_ctl_path_ctl_socket_wins() {
    let p = "/tmp/x.sock".to_string();
    let result = resolve_ctl_path(DIR, Some(p.clone()), Some("myhost")).unwrap();
    assert_eq!(result, p);
}

#[test]
fn resolve_ctl_path_ctl_socket_no_host() {
    let p = "/tmp/custom.sock".to_string();
    let result = resolve_ctl_path(DIR, Some(p.clone()), None).unwrap();
    assert_eq!(result, p);
}

#[test]
fn resolve_ctl_path_host_only() {
    let result = resolve_ctl_path(DIR, None, Some("devbox")).unwrap();
    let s = result;
    assert!(s.contains("connect-devbox.sock"), "got: {s}");
}

#[test]
fn resolve_ctl_path_none_none_errors() {
    assert!(resolve_ctl_path(DIR, None, None).is_err());
}

#[test]
fn format_age_seconds() {
    assert_eq!(format_age(100, 70), "30s ago");
}

#[test]
fn format_age_minutes() {
    assert_eq!(format_age(1000, 700), "5m ago");
}

#[test]
fn format_age_hours() {
    assert_eq!(format_age(10000, 0), "2h ago");
}

#[test]
fn format_age_days() {
    assert_eq!(format_age(200000, 0), "2d ago");
}

#[test]
fn format_idle_compact_durations() {
    assert_eq!(format_idle(100, 70), "30s");
    assert_eq!(format_idle(1000, 700), "5m");
    assert_eq!(format_idle(10000, 1), "2h");
    assert_eq!(format_idle(200000, 1), "2d");
}

#[test]
fn format_idle_unknown_is_dash() {
    // 0 = older server that doesn't report last_activity.
    assert_eq!(format_idle(100, 0), "-");
}

#[test]
fn parse_duration_units() {
    // The inverse of format_duration: same units, same meanings.
    assert_eq!(parse_duration("90s").unwrap(), 90);
    assert_eq!(parse_duration("30m").unwrap(), 30 * 60);
    assert_eq!(parse_duration("12h").unwrap(), 12 * 3600);
    assert_eq!(parse_duration("7d").unwrap(), 7 * 86400);
}

#[test]
fn parse_duration_bare_number_is_seconds() {
    assert_eq!(parse_duration("90").unwrap(), 90);
}

#[test]
fn parse_duration_rejects_garbage() {
    for bad in ["", "d", "7w", "1.5h", "-3m", "1h30m", "99999999999999999999d"] {
        assert!(parse_duration(bad).is_err(), "accepted: {bad:?}");
    }
}

#[test]
fn format_timestamp_epoch_zero() {
    let s = format_timestamp(0);
    assert_eq!(s.len(), 19, "got: {s}");
    // Could be 1970 (UTC) or 1969 (negative UTC offset)
    assert!(s.contains("1970") || s.contains("1969"), "got: {s}");
}

#[test]
fn format_timestamp_recent() {
    let s = format_timestamp(1_700_000_000);
    assert_eq!(s.len(), 19, "got: {s}");
    assert!(s.starts_with("202"), "got: {s}");
}

#[test]
fn format_timestamp_has_a_date_and_a_time() {
    let s = format_timestamp(1_700_000_000);
    let shape: String =
        s.chars().map(|c| if c.is_ascii_digit() { '0' } else { c }).collect();
    assert_eq!(shape, "0000-00-00 00:00:00");
    // 22:13:20 on 14 November in UTC: every time zone keeps the seconds.
    assert!(s.starts_with("2023-11-1") && s.ends_with("20"), "got: {s}");
}

/// The seconds from 1970 to a date and time of day, counted day by day.
fn seconds_to(shown: &str) -> i64 {
    let (year, clock) = shown.split_at(shown.len() - 15);
    let year: i64 = year.parse().unwrap();
    let part = |i: usize| clock[i..i + 2].parse::<i64>().unwrap();
    let leap = |y: i64| y % 4 == 0 && (y % 100 != 0 || y % 400 == 0);
    let mut days: i64 = 0;
    for y in 1970..year {
        days += if leap(y) { 366 } else { 365 };
    }
    for y in year..1970 {
        days -= if leap(y) { 366 } else { 365 };
    }
    let lengths = [31, if leap(year) { 29 } else { 28 }, 31, 30, 31, 30, 31, 31, 30, 31, 30, 31];
    for m in 1..part(1) {
        days += lengths[m as usize - 1];
    }
    days += part(4) - 1;
    days * 86400 + part(7) * 3600 + part(10) * 60 + part(13)
}

#[test]
fn format_timestamp_shows_the_moment() {
    let before = |secs: i64| secs as u64;
    for secs in [
        0,
        951_782_399,
        951_782_400,
        1_709_164_800,
        1_709_251_199,
        1_700_000_000,
        4_102_444_800,
        253_402_207_200,
        before(-1),
        before(-62_000_000_000),
        before(-62_200_000_000),
        before(-377_705_023_201),
    ] {
        let shown = format_timestamp(secs);
        let off = seconds_to(&shown) - secs as i64;
        assert!((-93_599..=93_599).contains(&off), "{secs}: {shown}");
    }
    assert!(format_timestamp(before(-1)).starts_with("19"));
    assert!(format_timestamp(before(-62_200_000_000)).starts_with("-00"));
}

#[test]
fn format_timestamp_has_a_dash_for_what_has_no_date() {
    for secs in [253_402_207_201, u64::MAX / 2, u64::MAX - 377_705_023_201] {
        assert_eq!(format_timestamp(secs), "-");
    }
    assert_ne!(format_timestamp(u64::MAX - 377_705_023_200), "-");
}

#[test]
fn parse_port_spec_single() {
    let (l, t) = parse_port_spec("8080").unwrap();
    assert_eq!(l, 8080);
    assert_eq!(t, 8080);
}

#[test]
fn parse_port_spec_pair() {
    let (l, t) = parse_port_spec("9090:3000").unwrap();
    assert_eq!(l, 9090);
    assert_eq!(t, 3000);
}

#[test]
fn parse_port_spec_invalid() {
    assert!(parse_port_spec("abc").is_err());
    assert!(parse_port_spec("80:xyz").is_err());
    assert!(parse_port_spec("99999").is_err());
}

#[test]
fn forward_args_both() {
    let (target, port) =
        forward_args("lf", Some("devbox:work".into()), Some("8080".into())).unwrap();
    assert_eq!(target.as_deref(), Some("devbox:work"));
    assert_eq!(port, "8080");
}

#[test]
fn forward_args_single_is_port() {
    let (target, port) = forward_args("lf", Some("8080".into()), None).unwrap();
    assert_eq!(target, None);
    assert_eq!(port, "8080");
}

#[test]
fn forward_args_none_errors_with_usage() {
    let err = forward_args("rf", None, None).unwrap_err();
    assert!(err.contains("usage: gritty rf"), "got: {err}");
}

#[test]
fn in_session_hint_only_inside() {
    assert!(in_session_hint(false).is_empty());
    assert!(in_session_hint(true).contains("inside a gritty session"));
}

#[test]
fn busy_port_hint_matches_both_producer_strings() {
    // rf path: client-side bind embeds the OS error.
    let rf =
        format!("{}Address already in use (os error 48)", FWD_ERR_BIND_PREFIX);
    let hint = busy_port_hint(&rf, 8080, 3000).unwrap();
    assert!(hint.contains("8081:3000"), "got: {hint}");
    // lf path: the server relays no OS error text, only the fixed string.
    let hint = busy_port_hint(FWD_ERR_SERVER_BIND, 5432, 5432).unwrap();
    assert!(hint.contains("5433:5432"), "got: {hint}");
    assert!(busy_port_hint("connection refused", 8080, 3000).is_none());
}

#[test]
fn busy_port_hint_at_port_max_suggests_lower() {
    let hint = busy_port_hint("Address already in use", u16::MAX, 80).unwrap();
    assert!(hint.contains("65534:80"), "got: {hint}");
}

#[test]
fn server_auto_start_args_threads_ctl_socket() {
    assert_eq!(server_auto_start_args(None), vec!["server"]);
    assert_eq!(
        server_auto_start_args(Some("/tmp/x.sock")),
        vec!["--ctl-socket", "/tmp/x.sock", "server"]
    );
}

#[test]
fn parse_port_spec_rejects_zero() {
    assert!(parse_port_spec("0").is_err());
    assert!(parse_port_spec("0:8080").is_err());
    assert!(parse_port_spec("8080:0").is_err());
}

#[test]
fn parse_editor_plain() {
    assert_eq!(parse_editor("vi"), ("vi".into(), Vec::new()));
}

#[test]
fn parse_editor_with_args() {
    assert_eq!(parse_editor("code --wait"), ("code".into(), vec!["--wait".into()]));
    assert_eq!(parse_editor("emacsclient -nw"), ("emacsclient".into(), vec!["-nw".into()]));
}

#[test]
fn parse_editor_quoted_path() {
    assert_eq!(
        parse_editor("'/path with spaces/ed' -f"),
        ("/path with spaces/ed".into(), vec!["-f".into()])
    );
}

#[test]
fn parse_editor_empty_falls_back_to_vi() {
    assert_eq!(parse_editor(""), ("vi".into(), Vec::new()));
    assert_eq!(parse_editor("   "), ("vi".into(), Vec::new()));
}

#[test]
fn resolve_ctl_path_local() {
    let result = resolve_ctl_path(DIR, None, Some("local")).unwrap();
    assert_eq!(result, "/run/user/1000/gritty/ctl.sock");
}

#[test]
fn parse_forward_socket_name_roundtrip() {
    let p = forward_socket_path("/run/g/connect-my-devbox.sock", 12);
    let name = file_name_of(&p).unwrap();
    assert_eq!(parse_forward_socket_name(&name), Some(("my-devbox".to_string(), 12)));
    assert_eq!(parse_forward_socket_name("fwd-devbox-3.sock"), Some(("devbox".to_string(), 3)));
    assert_eq!(parse_forward_socket_name("fwd-devbox-x.sock"), None);
    assert_eq!(parse_forward_socket_name("ctl.sock"), None);
}

#[test]
fn live_forward_sockets_single_live() {
    let live = live_forward_sockets(DIR, &vec![found("fwd-devbox-3.sock", true)]);
    assert_eq!(live.len(), 1);
    assert_eq!(live[0].host, "devbox");
    assert_eq!(live[0].session_id, 3);
    assert!(live[0].path.ends_with("fwd-devbox-3.sock"));
    assert_eq!(candidate_fallback_label(&live[0]), "devbox (session #3)");
}

#[test]
fn live_forward_sockets_hyphenated_host() {
    let live = live_forward_sockets(DIR, &vec![found("fwd-my-devbox-12.sock", true)]);
    assert_eq!(live.len(), 1);
    assert_eq!(live[0].host, "my-devbox");
    assert_eq!(live[0].session_id, 12);
}

#[test]
fn live_forward_sockets_skips_stale_and_other_sockets() {
    // A crashed client leaves the socket file behind with no listener.
    let files = vec![
        found("fwd-dead-1.sock", false),
        found("ctl.sock", true),
        found("fwd-devbox-2.sock", true),
    ];
    let live = live_forward_sockets(DIR, &files);
    assert_eq!(live.len(), 1);
    assert_eq!(live[0].host, "devbox");
}

#[test]
fn live_forward_sockets_empty_and_multiple() {
    assert!(live_forward_sockets(DIR, &vec![]).is_empty());
    let files = vec![found("fwd-fate-7.sock", true), found("fwd-devbox-2.sock", true)];
    let live = live_forward_sockets(DIR, &files);
    assert_eq!(live.len(), 2);
    // Sorted by path for stable listings.
    assert_eq!(live[0].host, "devbox");
    assert_eq!(live[1].host, "fate");
}

#[test]
fn ambiguous_host_guard_flags_alias_and_tunnel() {
    // Alias collision: `foo.bar.com` canonicalizes to `foo`.
    let err = ambiguous_host_guard(&foo_alias(), "foo.bar.com", "lf", false).unwrap_err();
    assert!(err.contains("also a connection name"), "got: {err}");
    // Tunnel collision: a connect-3000.sock exists.
    let err = ambiguous_host_guard(&no_aliases(), "3000", "rf", true).unwrap_err();
    assert!(err.contains("gritty rf 3000 <port>"), "got: {err}");
    // No collision: plain port passes.
    assert!(ambiguous_host_guard(&no_aliases(), "8080", "lf", false).is_ok());
}
