use gritty::complete::{complete_kill_target, complete_target, host_to_ask, known_hosts, session_names};
use gritty::config::{ConfigFile, Defaults};

fn hosts() -> Vec<String> {
    ["local", "coder", "fate.x.pattern.net"].map(String::from).to_vec()
}

fn sessions(host: &str) -> Vec<String> {
    match host {
        "local" => vec!["0".into(), "scratch".into()],
        "fate.x.pattern.net" => vec!["work".into(), "wiki".into(), "laptop2/x".into()],
        _ => Vec::new(),
    }
}

/// Complete with the sessions of the host that is asked, if one is.
fn complete(current: &str) -> Vec<String> {
    let found = match host_to_ask(current) {
        Some(host) => sessions(&host),
        None => Vec::new(),
    };
    complete_target(current, &hosts(), &found)
}

#[test]
fn hosts_complete_until_a_colon_without_probing() {
    assert_eq!(complete(""), hosts());
    assert_eq!(complete("fa"), ["fate.x.pattern.net"]);
    assert!(complete("zzz").is_empty());
    for typed in ["", "fa", "zzz"] {
        assert_eq!(host_to_ask(typed), None, "host completion must not talk to daemons");
    }
}

#[test]
fn sessions_complete_after_the_colon_keeping_the_typed_host() {
    assert_eq!(
        complete("fate.x.pattern.net:"),
        ["fate.x.pattern.net:work", "fate.x.pattern.net:wiki", "fate.x.pattern.net:laptop2/x"]
    );
    assert_eq!(complete("fate.x.pattern.net:wo"), ["fate.x.pattern.net:work"]);
    assert_eq!(complete("fate.x.pattern.net:laptop2/"), ["fate.x.pattern.net:laptop2/x"]);
    assert!(complete("coder:").is_empty(), "down daemon = nothing");
}

#[test]
fn empty_host_means_local_and_stays_empty_in_the_result() {
    assert_eq!(complete(":"), [":0", ":scratch"]);
    assert_eq!(complete(":s"), [":scratch"]);
}

#[test]
fn unknown_typed_host_is_still_probed_as_spelled() {
    // An alias or a host without a tunnel yet: the daemon lookup decides,
    // not the host list -- so aliases resolve and typos just yield nothing.
    assert_eq!(host_to_ask("f:"), Some("f".to_string()));
}

#[test]
fn kill_offers_local_sessions_beside_hosts() {
    assert_eq!(complete_kill_target("", &hosts(), &sessions("local")).len(), 5);
    assert_eq!(complete_kill_target("s", &hosts(), &sessions("local")), ["scratch"]);
    assert_eq!(
        complete_kill_target("local:s", &hosts(), &sessions("local")),
        ["local:scratch"]
    );
}

#[test]
fn known_hosts_are_local_then_sorted_without_repeats() {
    let tunnels = vec!["web".to_string(), "local".to_string(), "dev".to_string()];
    let mut cfg = ConfigFile::default();
    cfg.set_host("dev", Defaults::default());
    cfg.set_host("build", Defaults::default());
    assert_eq!(known_hosts(&tunnels, Some(&cfg)), ["local", "build", "dev", "web"]);
    assert_eq!(known_hosts(&vec![], None), ["local"]);
}

#[test]
fn session_names_are_typeable() {
    assert!(session_names(&vec![], "laptop").is_empty());
}
