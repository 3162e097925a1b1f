use gritty::protocol::PROTOCOL_VERSION;
use gritty::refresh::{
    after_kill, assess, confirming_line, local_verdict_line, merge_ssh_options, read_signed_pid,
    reap_report, reaped_line, refresh_error_line, refresh_summary, remote_binary_outdated_msg, remote_refresh_note,
    supervisor_verdict_line, suspect_line, verify_protocol, AfterKill, RemoteAction, RemoteEvent, RemoteRefresh,
    Verdict, Verified,
};
use gritty::runinfo::{RunInfo, Staleness};

/// What this build records of itself.
fn current() -> RunInfo {
    RunInfo { protocol: PROTOCOL_VERSION, git_hash: "abc1234".to_string() }
}

fn words(v: &[&str]) -> Vec<String> {
    v.iter().map(|s| s.to_string()).collect()
}

#[test]
fn assess_not_running_when_no_info_and_dead() {
    assert_eq!(assess(false, None, &current()), Verdict::NotRunning);
}

#[test]
fn assess_unknown_when_no_info_but_alive() {
    // Process running without a `.info` sidecar predates this feature --
    // definitionally stale, needs a restart to pick up the new binary.
    let v = assess(true, None, &current());
    assert_eq!(v, Verdict::Unknown);
    assert!(v.needs_restart());
}

#[test]
fn assess_current_when_info_matches() {
    let v = assess(true, Some(current()), &current());
    assert_eq!(v, Verdict::Current);
    assert!(!v.needs_restart());
}

#[test]
fn assess_stale_on_protocol_mismatch() {
    let mut info = current();
    info.protocol = PROTOCOL_VERSION.wrapping_sub(1);
    let v = assess(true, Some(info), &current());
    assert!(matches!(v, Verdict::Stale(Staleness::Protocol { .. })));
    assert!(v.needs_restart());
}

#[test]
fn assess_stale_on_build_mismatch() {
    let mut info = current();
    info.git_hash = "old-hash".to_string();
    let v = assess(true, Some(info), &current());
    assert!(matches!(v, Verdict::Stale(Staleness::Build { .. })));
    assert!(v.needs_restart());
}

#[test]
fn assess_not_running_with_orphaned_info() {
    // `.info` exists but the process is dead (SIGKILL'd, crashed):
    // the orphaned sidecar must not be trusted.
    assert_eq!(assess(false, Some(current()), &current()), Verdict::NotRunning);
}

#[test]
fn verdict_display() {
    assert_eq!(Verdict::NotRunning.message(), "not running");
    assert_eq!(Verdict::Current.message(), "up to date");
    assert!(Verdict::Unknown.message().contains("predates"));
}

#[test]
fn outdated_remote_message_is_actionable() {
    // The whole point of the end-to-end probe is to break the loop where
    // every tool reports success while nothing works: the message must
    // name both versions and the exact commands that fix it.
    let msg = remote_binary_outdated_msg("devbox", 21, 22);
    assert!(msg.contains("devbox"));
    assert!(msg.contains("v21"));
    assert!(msg.contains("v22"));
    assert!(msg.contains("gritty bootstrap devbox"));
    assert!(msg.contains("gritty refresh devbox"));
}

#[test]
fn stale_verdicts_name_both_sides() {
    let v = Verdict::Stale(Staleness::Protocol { running: 21, on_disk: 22 });
    assert!(v.message().contains("21") && v.message().contains("22"));
    let v = Verdict::Stale(Staleness::Build {
        build: "old".to_string(),
        disk_build: "new".to_string(),
    });
    assert!(v.message().contains("old") && v.message().contains("new"));
    assert!(local_verdict_line(&v).contains(&v.message()));
    assert!(supervisor_verdict_line("devbox", &v).contains("devbox"));
}

#[test]
fn a_protocol_mismatch_outweighs_the_build() {
    let old = RunInfo { protocol: 1, git_hash: "old".to_string() };
    assert!(matches!(
        old.staleness_vs(&current()),
        Some(Staleness::Protocol { running: 1, on_disk: PROTOCOL_VERSION })
    ));
    assert!(current().staleness_vs(&current()).is_none());
}

#[test]
fn persisted_options_come_first() {
    let persisted = words(&["Port=2222", "ProxyJump=b"]);
    let configured = words(&["ProxyJump=c", "Compression=yes"]);
    assert_eq!(
        merge_ssh_options(&persisted, &configured),
        ["Port=2222", "ProxyJump=b", "ProxyJump=c", "Compression=yes"]
    );
}

#[test]
fn pids_may_be_padded() {
    assert_eq!(read_signed_pid("4711\n"), Some(4711));
    assert_eq!(read_signed_pid("nope"), None);
    assert_eq!(read_signed_pid(""), None);
}

#[test]
fn an_unanswered_kill_falls_back_to_a_signal() {
    match after_kill(None, "", Some("4711\n")) {
        AfterKill::Signal(pid) => assert_eq!(pid, Some(4711)),
        _ => panic!("a server that does not answer is signalled"),
    }
}

#[test]
fn verification_tells_the_three_cases_apart() {
    assert!(matches!(verify_protocol("devbox", Ok(PROTOCOL_VERSION)), Verified::Good(_)));
    assert!(matches!(verify_protocol("devbox", Ok(1)), Verified::Outdated(_)));
    assert!(matches!(verify_protocol("devbox", Err("x".to_string())), Verified::Unsure(_)));
    assert_eq!(remote_refresh_note("devbox", Ok(true)), None);
    assert!(remote_refresh_note("devbox", Err("boom".to_string())).unwrap().contains("boom"));
}

#[test]
fn refreshing_a_tunnel_restarts_the_supervisor_last() {
    let mut r = RemoteRefresh::new("devbox", None);
    let stale = Verdict::Stale(Staleness::Protocol { running: 21, on_disk: 22 });
    let first = r.step(RemoteEvent::Assessed {
        verdict: stale,
        dest_file: Some("me@devbox".to_string()),
        options_file: None,
    });
    match first {
        RemoteAction::Delegate { say, destination } => {
            assert_eq!(destination, "me@devbox");
            assert_eq!(say, "devbox: checking remote daemon...");
        }
        _ => panic!("the remote side is refreshed first"),
    }
    assert!(matches!(r.step(RemoteEvent::Delegated(Ok(true))), RemoteAction::Stop { .. }));
    match r.step(RemoteEvent::Stopped(Ok(()))) {
        RemoteAction::Start { args } => assert!(args.contains(&"me@devbox".to_string())),
        _ => panic!("the supervisor starts again"),
    }
    assert!(matches!(r.step(RemoteEvent::Started(Ok(()))), RemoteAction::Probe { .. }));
    assert!(matches!(
        r.step(RemoteEvent::Probed(Ok(PROTOCOL_VERSION))),
        RemoteAction::Done(Some(Verified::Good(_)))
    ));
}

#[test]
fn refreshing_fails_if_any_host_fails() {
    assert!(refresh_summary(0).is_ok());
    assert!(refresh_summary(2).unwrap_err().contains('2'));
    assert!(refresh_error_line("devbox", "boom").contains("boom"));
    assert!(reaped_line(7, Ok(())).contains('7'));
    assert!(reaped_line(7, Err("denied".to_string())).contains("denied"));
    assert_eq!(
        reap_report(vec![]),
        ["no orphans confirmed (recovered on their own)"]
    );
    assert_eq!(
        reap_report(vec![(7, Ok(())), (8, Err("denied".to_string()))]),
        ["reaped orphaned daemon pid 7", "could not kill orphan pid 8: denied"]
    );
    assert_eq!(suspect_line("pid 7"), "possible orphaned daemon: pid 7");
    assert_eq!(confirming_line(5), "confirming (5s grace for self-heal)...");
}
