use gritty::report::{
    drop_partial_line, excerpt, excerpt_marked, fence, from_first_heading, is_warn_or_error,
    llm_report, read_from, report_logs, sanitize, LogPart, ReportFacts,
};

fn owned(v: &[&str]) -> Vec<String> {
    v.iter().map(|s| s.to_string()).collect()
}

#[test]
fn sanitize_strips_csi_osc_and_controls() {
    assert_eq!(sanitize("\x1b[2;33mhello\x1b[0m"), "hello");
    assert_eq!(sanitize("\x1b]0;title\x07after"), "after");
    assert_eq!(sanitize("\x1b]8;;http://x\x1b\\link"), "link");
    assert_eq!(sanitize("a\x07b\rc"), "abc");
    assert_eq!(sanitize("keep\nnew\tlines"), "keep\nnew\tlines");
    // Truncated escape at end of input must not panic or loop.
    assert_eq!(sanitize("x\x1b"), "x");
    assert_eq!(sanitize("x\x1b["), "x");
}

#[test]
fn fence_grows_past_embedded_fences() {
    let fenced = fence("safe");
    assert!(fenced.starts_with("~~~\n"));
    let tricky = fence("~~~\ninjected\n~~~");
    assert!(tricky.starts_with("~~~~\n"), "got: {tricky}");
    assert!(tricky.ends_with("~~~~\n\n"));
}

#[test]
fn excerpt_tail_only() {
    let lines: Vec<String> = (0..10).map(|i| format!("line{i}")).collect();
    let out = excerpt(&lines, 3, 5, |_: &str| false);
    assert_eq!(out, "[... 7 earlier lines not shown ...]\nline7\nline8\nline9\n");
}

#[test]
fn excerpt_keeps_earlier_warnings_with_gap_markers() {
    let lines = owned(&["ok0", "WARN w1", "ok2", "WARN w3", "ok4", "ok5", "ok6"]);
    let out = excerpt(&lines, 2, 10, |l: &str| l.contains("WARN"));
    assert_eq!(
        out,
        "[... 1 earlier lines not shown ...]\nWARN w1\n[... 1 lines skipped ...]\n\
         WARN w3\n[... 1 lines skipped ...]\nok5\nok6\n"
    );
}

#[test]
fn excerpt_caps_extra_warnings_keeping_most_recent() {
    let lines: Vec<String> = (0..20).map(|i| format!("WARN {i}")).collect();
    let out = excerpt(&lines, 2, 3, |l: &str| l.contains("WARN"));
    // Tail = 18,19; extras capped to the 3 most recent before the tail.
    assert!(out.contains("WARN 15\nWARN 16\nWARN 17\nWARN 18\nWARN 19\n"), "got: {out}");
    assert!(!out.contains("WARN 14\n"));
    assert!(out.starts_with("[... 15 earlier lines not shown ...]\n"));
}

#[test]
fn excerpt_short_file_shows_everything() {
    let lines = owned(&["a", "b"]);
    assert_eq!(excerpt(&lines, 10, 10, |_: &str| false), "a\nb\n");
}

#[test]
fn read_tail_drops_partial_first_line() {
    let file = "aaaa\nbbbb\ncccc\n";
    let (truncated, from) = read_from(file.len() as u64, 7);
    assert!(truncated);
    assert_eq!(drop_partial_line(&file[from as usize..], truncated), "cccc\n");
    let (truncated, from) = read_from(file.len() as u64, 1024);
    assert!(!truncated);
    assert_eq!(drop_partial_line(&file[from as usize..], truncated), "aaaa\nbbbb\ncccc\n");
}

#[test]
fn cleaning_twice_is_cleaning_once() {
    for s in ["\x1b[31mred\x1b[0m", "plain", "\x1b\x1b[[x", "tab\tnew\nline\r"] {
        let once = sanitize(s);
        assert_eq!(sanitize(&once), once);
        assert!(!once.contains('\x1b'));
    }
}

#[test]
fn warnings_and_errors_are_kept() {
    assert!(is_warn_or_error("2026-01-01T00:00:00Z  WARN gritty: x"));
    assert!(is_warn_or_error("2026-01-01T00:00:00Z ERROR gritty: x"));
    assert!(!is_warn_or_error("2026-01-01T00:00:00Z  INFO gritty: x"));
    let lines = owned(&["a", "b"]);
    assert_eq!(excerpt_marked(&lines, 1, 5, &vec![true, false]), "a\nb\n");
}

#[test]
fn the_primer_begins_at_its_heading() {
    assert_eq!(from_first_heading("<!-- note -->\n## Title\ntext\n"), "## Title\ntext\n");
}

#[test]
fn a_report_holds_what_was_gathered() {
    let facts = ReportFacts {
        description: "it hangs".to_string(),
        primer: "## Primer\n".to_string(),
        version: "1.2.3".to_string(),
        git_hash: "abc1234".to_string(),
        protocol: 22,
        os: "linux".to_string(),
        arch: "x86_64".to_string(),
        local_time: "2026-01-01 00:00:00".to_string(),
        socket_dir: "/sock".to_string(),
        paths: vec![],
        groups: vec![],
        sessions_json: "[]".to_string(),
        tunnels_json: "[]".to_string(),
        logs: vec![LogPart {
            title: "server".to_string(),
            path: "/sock/daemon.log".to_string(),
            content: Some(("one\n\x1b[31mtwo\x1b[0m\n".to_string(), false)),
        }],
        tail_lines: 80,
    };
    let report = llm_report(&facts);
    for word in ["it hangs", "# Primer", "1.2.3", "abc1234", "linux", "/sock/daemon.log", "two"] {
        assert!(report.contains(word), "missing {word}: {report}");
    }
    assert!(!report.contains('\x1b'));
}

#[test]
fn the_servers_logs_are_read_first() {
    let logs = report_logs("/sock", &vec![]);
    assert!(logs.iter().any(|l| l.1 == "/sock/daemon.log"));
}

#[test]
fn excerpt_says_what_it_leaves_out_at_the_end() {
    assert_eq!(
        excerpt(&owned(&["a"]), 0, 0, |_: &str| false),
        "[... 1 earlier lines not shown ...]\n"
    );
    let lines = owned(&["WARN w", "b", "c"]);
    assert_eq!(
        excerpt(&lines, 0, 5, |l: &str| l.contains("WARN")),
        "WARN w\n[... 2 lines skipped ...]\n"
    );
}
