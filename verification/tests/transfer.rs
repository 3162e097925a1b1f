use gritty::attach::ServerReply;
use gritty::config::ConfigFile;
use gritty::manifest::{read_u32, sanitize_path, send_manifest, HeaderState, HeaderStep};
use gritty::protocol::{
    ErrorCode, SessionEntry, PROTOCOL_VERSION, TRANSFER_GO_BUSY, TRANSFER_GO_PAIRED, TRANSFER_GO_SUPERSEDED,
};
use gritty::receive::{
    file_count, receive_dir, receive_dir_error, receive_mode, receive_request, received_line,
    receiving_line, replacing_line, resolve_receive_output, tmp_path_for, ReceiveAction, Receiving,
};
use gritty::transfer::{
    classify_go, dedupe_by_server_id, discovered, discovery_result, gather, name_width, next_chunk,
    offer_result, paired_line, plan_files, plan_stdin, plan_transfer, probe_outcome, progress_line,
    redraws,
    remaining_after, sanitize_basename, send_args_error, sending_line, sending_stdin_line,
    session_label, session_label_for, skipped_session_line, sort_outcomes, timeout_message,
    transfer_reply, unpaired_message, waiting_line, walked_name, Answer, DiscoveredSession, GoOutcome, PathKind,
    ProbeOutcome, Race, RaceStep, SendPath, TransferVia, WalkedFile,
};
use gritty::wire_names::{names_conflict, uniquify_wire_names, SendEntry};

const DIR: &str = "/run/user/1000/gritty";

fn words(v: &[&str]) -> Vec<String> {
    v.iter().map(|s| s.to_string()).collect()
}

fn answer(server_id: u64, sessions: Vec<DiscoveredSession>) -> Answer {
    Answer { server_id, sessions }
}

fn entry(name: &str, path: &str) -> SendEntry {
    SendEntry {
        name: name.to_string(),
        size: 0,
        mode: 0o644,
        path: path.to_string(),
        canonical: None,
    }
}

/// A file that exists: its path leads to `canonical`.
fn existing(name: &str, path: &str, canonical: &str) -> SendEntry {
    SendEntry { canonical: Some(canonical.to_string()), ..entry(name, path) }
}

fn wire_names(entries: &[SendEntry]) -> Vec<&str> {
    entries.iter().map(|e| e.name.as_str()).collect()
}

/// A plain file on the command line.
fn file(path: &str, size: u64) -> SendPath {
    SendPath {
        path: path.to_string(),
        kind: PathKind::File { size, mode: 0o644, canonical: Some(path.to_string()) },
    }
}

fn walked(path: &str, size: u64) -> WalkedFile {
    WalkedFile { path: path.to_string(), size, mode: 0o644, canonical: Some(path.to_string()) }
}

fn encode_one_file(name: &str, payload: &[u8]) -> Vec<u8> {
    let mut v = encode_entry(name, payload, 0);
    v.extend_from_slice(&0u16.to_be_bytes()); // end sentinel
    v
}

/// Encode a file entry with an explicit mode and no sentinel, so streams
/// of several files (or truncated ones) can be assembled.
fn encode_entry(name: &str, payload: &[u8], mode: u32) -> Vec<u8> {
    let mut v = Vec::new();
    v.extend_from_slice(&(name.len() as u16).to_be_bytes());
    v.extend_from_slice(name.as_bytes());
    v.extend_from_slice(&(payload.len() as u64).to_be_bytes());
    v.extend_from_slice(&mode.to_be_bytes());
    v.extend_from_slice(payload);
    v
}

/// What came of a stream: the files, how many were complete, and how it ended.
struct Outcome {
    files: Vec<(String, u32, Vec<u8>)>,
    received: u32,
    end: Result<(), String>,
}

/// Read a stream with a small buffer, as it comes.
fn receive(input: &[u8], buffer: usize, to_dir: bool) -> Outcome {
    let mut state = Receiving::new();
    let mut files: Vec<(String, u32, Vec<u8>)> = Vec::new();
    let mut at = 0;
    loop {
        let want = state.want(buffer);
        let in_data = matches!(state.phase, gritty::receive::ReceivePhase::Data { .. });
        let there = input.len() - at;
        let n = if in_data { want.min(there) } else { want };
        if n > there || n == 0 {
            let end = Err(state.broke_off(to_dir, "unexpected end of file"));
            return Outcome { files, received: state.received, end };
        }
        for action in state.step(input[at..at + n].to_vec()) {
            match action {
                ReceiveAction::Open { name, mode, .. } => files.push((name, mode, Vec::new())),
                ReceiveAction::Write(b) => files.last_mut().unwrap().2.extend(b),
                ReceiveAction::Commit => {}
                ReceiveAction::End => {
                    return Outcome { files, received: state.received, end: Ok(()) }
                }
                ReceiveAction::Fail(e) => {
                    return Outcome { files, received: state.received, end: Err(e) }
                }
            }
        }
        at += n;
    }
}

#[test]
fn timeout_message_names_the_budget_and_both_ways_out() {
    let msg = timeout_message("receiver", 300);
    assert_eq!(
        msg,
        "no receiver paired within 300s (raise --timeout, or --no-timeout to wait indefinitely)"
    );
    assert!(timeout_message("sender", 5).starts_with("no sender paired within 5s"));
}

#[test]
fn unpaired_message_explains_each_closed_offer() {
    // Nothing specific known: the generic explanation of what closes an
    // offer before pairing.
    let msg = unpaired_message("receiver", &vec![]);
    assert!(
        msg.starts_with("no receiver paired: every offered session closed the offer"),
        "{msg}"
    );
    assert!(msg.contains("newer `gritty send`"), "{msg}");

    let msg = unpaired_message(
        "receiver",
        &vec![
            "local:work: replaced by a newer gritty send".to_string(),
            "devbox:x: busy with another transfer".to_string(),
        ],
    );
    assert_eq!(
        msg,
        "no receiver paired: local:work: replaced by a newer gritty send; devbox:x: busy with another transfer"
    );
}

#[test]
fn go_signal_outcomes() {
    let work = Some("local:work");
    assert_eq!(classify_go(Ok(TRANSFER_GO_PAIRED), work), GoOutcome::Paired);
    assert_eq!(
        classify_go(Ok(TRANSFER_GO_SUPERSEDED), work),
        GoOutcome::Skipped(
            "local:work: replaced by a newer gritty send in that session".into()
        )
    );
    assert_eq!(
        classify_go(Ok(TRANSFER_GO_BUSY), work),
        GoOutcome::Skipped("local:work: busy with another transfer".into())
    );
    // EOF: the session went away (or an older server dropped us); no claim made.
    assert_eq!(
        classify_go(Err(()), work),
        GoOutcome::Skipped("local:work: closed before pairing".into())
    );
    assert!(matches!(classify_go(Ok(0x7f), work), GoOutcome::Protocol(_)));
    // Run inside the session (no label): no "?:" prefix, and "this session".
    assert_eq!(
        classify_go(Ok(TRANSFER_GO_SUPERSEDED), None),
        GoOutcome::Skipped("replaced by a newer gritty send in this session".into())
    );
}

#[test]
fn progress_lines_pad_the_name_to_the_batch_width() {
    let width = "longer-name".len();
    let a = progress_line("a", width, 50, 100, false);
    let b = progress_line("longer-name", width, 100, 100, false);
    // Both bars start in the same column: the name cell is padded.
    assert_eq!(a.find('=').unwrap(), b.find('=').unwrap(), "{a:?} vs {b:?}");
    assert!(a.contains("50%") && a.contains("50 B/100 B"), "{a}");
    assert!(a.starts_with("  a          "), "{a:?}");
    assert!(b.contains("100%"), "{b}");
}

#[test]
fn waiting_line_names_where_the_offer_went() {
    assert_eq!(
        waiting_line("receiver", "gritty receive", &vec![]),
        "waiting for receiver -- run `gritty receive` on the client side"
    );
    assert_eq!(
        waiting_line("receiver", "gritty receive", &words(&["devbox:work"])),
        "waiting for receiver in devbox:work -- run `gritty receive` there"
    );
    assert_eq!(
        waiting_line("sender", "gritty send <files>", &words(&["devbox:work", "local:0"])),
        "waiting for sender in 2 sessions (devbox:work, local:0) -- run `gritty send <files>` in one of them"
    );
}

#[test]
fn session_label_matches_ls_display_form() {
    let config = ConfigFile::default();
    let me = config.resolve_session(Some("devbox")).client_name;
    assert_eq!(session_label(&config, "devbox", &format!("{me}/work")), "devbox:work");
    assert_eq!(session_label(&config, "devbox", "pat/work"), "devbox:pat/work");
    assert_eq!(session_label(&config, "local", "7"), "local:7");
}

fn resolve(flag: bool, dir: Option<&str>, tty: bool) -> (bool, Option<String>, bool) {
    resolve_receive_output(flag, dir.map(String::from), tty)
}

#[test]
fn receive_output_stdout_flag_wins() {
    assert_eq!(resolve(true, None, true), (true, None, false));
}

#[test]
fn receive_output_dash_means_stdout() {
    assert_eq!(resolve(false, Some("-"), true), (true, None, false));
}

#[test]
fn receive_output_bare_tty_is_dir_mode() {
    assert_eq!(resolve(false, None, true), (false, None, false));
}

#[test]
fn receive_output_bare_redirected_auto_switches() {
    assert_eq!(resolve(false, None, false), (true, None, true));
}

#[test]
fn receive_output_explicit_dir_redirected_stays_dir_mode() {
    assert_eq!(resolve(false, Some("out"), false), (false, Some("out".to_string()), false));
}

#[test]
fn sanitize_basename_simple() {
    assert_eq!(sanitize_basename("foo.txt").unwrap(), "foo.txt");
}

#[test]
fn sanitize_basename_strips_path() {
    assert_eq!(sanitize_basename("/a/b/foo.txt").unwrap(), "foo.txt");
}

#[test]
fn sanitize_basename_rejects_dotdot() {
    assert!(sanitize_basename("..").is_err());
}

#[test]
fn sanitize_path_allows_nested() {
    assert_eq!(sanitize_path("a/b/foo.txt").unwrap(), "a/b/foo.txt");
}

#[test]
fn sanitize_path_allows_simple() {
    assert_eq!(sanitize_path("foo.txt").unwrap(), "foo.txt");
}

#[test]
fn sanitize_path_rejects_dotdot() {
    assert!(sanitize_path("a/../b").is_err());
    assert!(sanitize_path("..").is_err());
}

#[test]
fn sanitize_path_rejects_absolute() {
    assert!(sanitize_path("/etc/passwd").is_err());
}

#[test]
fn sanitize_path_rejects_empty() {
    assert!(sanitize_path("").is_err());
}

fn ds(wire_name: &str, ctl_path: &str) -> DiscoveredSession {
    DiscoveredSession { wire_name: wire_name.into(), ctl_path: ctl_path.to_string() }
}

// Regression: a daemon reachable through two tunnel sockets was probed
// twice, so every session got two sender connections -- the duplicate
// arriving mid-relay aborted receive-first transfers.
#[test]
fn dedupe_by_server_id_drops_second_route_to_same_daemon() {
    let deduped = dedupe_by_server_id(vec![
        answer(7, vec![ds("a/0", "/t/connect-fate.sock"), ds("a/1", "/t/connect-fate.sock")]),
        answer(7, vec![ds("a/0", "/t/connect-fate2.sock"), ds("a/1", "/t/connect-fate2.sock")]),
        answer(9, vec![ds("b/0", "/t/ctl.sock")]),
    ]);
    let got: Vec<_> =
        deduped.iter().map(|d| (d.wire_name.as_str(), d.ctl_path.as_str())).collect();
    assert_eq!(
        got,
        vec![
            ("a/0", "/t/connect-fate.sock"),
            ("a/1", "/t/connect-fate.sock"),
            ("b/0", "/t/ctl.sock"),
        ]
    );
}

#[test]
fn dedupe_by_server_id_keeps_distinct_daemons() {
    let deduped = dedupe_by_server_id(vec![
        answer(1, vec![ds("a/0", "/t/ctl.sock")]),
        answer(2, vec![ds("a/0", "/t/connect-other.sock")]),
    ]);
    assert_eq!(deduped.len(), 2);
}

#[test]
fn uniquify_leaves_distinct_names_alone() {
    let out = uniquify_wire_names(vec![
        entry("a.txt", "x/a.txt"),
        entry("b.txt", "x/b.txt"),
        entry("dir/a.txt", "p/dir/a.txt"),
    ])
    .unwrap();
    assert_eq!(wire_names(&out.entries), ["a.txt", "b.txt", "dir/a.txt"]);
    assert!(out.renames.is_empty() && out.dropped.is_empty());
}

#[test]
fn uniquify_prefixes_parent_dir_on_collision() {
    // `send docs/a/reference.md docs/b/reference.md`
    let out = uniquify_wire_names(vec![
        entry("reference.md", "docs/a/reference.md"),
        entry("reference.md", "docs/b/reference.md"),
    ])
    .unwrap();
    assert_eq!(wire_names(&out.entries), ["a/reference.md", "b/reference.md"]);
}

#[test]
fn uniquify_reports_exact_renames() {
    let out = uniquify_wire_names(vec![
        entry("reference.md", "docs/a/reference.md"),
        entry("reference.md", "docs/b/reference.md"),
    ])
    .unwrap();
    assert_eq!(
        out.renames,
        [
            ("docs/a/reference.md".to_string(), "a/reference.md".to_string()),
            ("docs/b/reference.md".to_string(), "b/reference.md".to_string()),
        ]
    );
}

#[test]
fn uniquify_extends_until_names_diverge() {
    // One parent level is not enough: the shared x/ must be walked past.
    let out =
        uniquify_wire_names(vec![entry("ref.md", "a/x/ref.md"), entry("ref.md", "b/x/ref.md")])
            .unwrap();
    assert_eq!(wire_names(&out.entries), ["a/x/ref.md", "b/x/ref.md"]);
}

#[test]
fn uniquify_keeps_exhausted_name_when_sibling_extends() {
    // `send ref.md a/ref.md` -- the bare name has no parents to add.
    let out = uniquify_wire_names(vec![entry("ref.md", "ref.md"), entry("ref.md", "a/ref.md")])
        .unwrap();
    assert_eq!(wire_names(&out.entries), ["ref.md", "a/ref.md"]);
}

#[test]
fn uniquify_disambiguates_recursive_walks() {
    // `send -r x/data y/data` -- both walks emit data/f.txt.
    let out = uniquify_wire_names(vec![
        entry("data/f.txt", "x/data/f.txt"),
        entry("data/f.txt", "y/data/f.txt"),
    ])
    .unwrap();
    assert_eq!(wire_names(&out.entries), ["x/data/f.txt", "y/data/f.txt"]);
}

#[test]
fn uniquify_resolves_file_vs_directory_prefix() {
    // `a` (a plain file) and `a/ref.md` cannot both materialize at the
    // receiver: writing dest/a then create_dir_all(dest/a) fails.
    let out =
        uniquify_wire_names(vec![entry("a", "notes/a"), entry("a/ref.md", "docs/a/ref.md")])
            .unwrap();
    assert_eq!(wire_names(&out.entries), ["notes/a", "docs/a/ref.md"]);
}

#[test]
fn uniquify_resolves_synthesized_directory_prefix_conflicts() {
    // `send notes/a docs/a/ref.md docs/b/ref.md`: disambiguation invents
    // a/ref.md, which collides with the plain file `a` as a directory.
    let out = uniquify_wire_names(vec![
        entry("a", "notes/a"),
        entry("ref.md", "docs/a/ref.md"),
        entry("ref.md", "docs/b/ref.md"),
    ])
    .unwrap();
    assert_eq!(wire_names(&out.entries), ["notes/a", "docs/a/ref.md", "b/ref.md"]);
}

#[test]
fn uniquify_accounts_for_every_file_and_only_lengthens_names() {
    let twice = |path: &str| SendEntry {
        canonical: Some("/w/docs/a/ref.md".to_string()),
        ..entry("ref.md", path)
    };
    let given = 4;
    let out = uniquify_wire_names(vec![
        twice("docs/a/ref.md"),
        twice("./docs/a/ref.md"),
        entry("ref.md", "docs/b/ref.md"),
        entry("c.md", "docs/c.md"),
    ])
    .unwrap();
    assert_eq!(out.entries.len() + out.dropped.len(), given);
    assert_eq!(wire_names(&out.entries), ["a/ref.md", "b/ref.md", "c.md"]);
    assert_eq!(out.dropped, [("./docs/a/ref.md".to_string(), "docs/a/ref.md".to_string())]);
    assert!(out.entries.iter().all(|e| e.name.ends_with(".md") && e.name.len() >= 4));
}

#[test]
fn uniquify_errors_on_unresolvable_prefix_conflict() {
    let err =
        uniquify_wire_names(vec![entry("a", "a"), entry("a/ref.md", "a/ref.md")]).unwrap_err();
    assert!(err.message().contains("collision"), "{err:?}");
}

#[test]
fn uniquify_dedupe_keeps_the_short_name() {
    // `send docs/notes.txt docs/notes.txt` must arrive as notes.txt --
    // the survivor must not grow a docs/ prefix on its way out.
    let p = "docs/notes.txt";
    let out = uniquify_wire_names(vec![
        existing("notes.txt", p, "/tmp/docs/notes.txt"),
        existing("notes.txt", p, "/tmp/docs/notes.txt"),
    ])
    .unwrap();
    assert_eq!(wire_names(&out.entries), ["notes.txt"]);
    assert!(out.renames.is_empty());
    assert_eq!(out.dropped.len(), 1);
}

#[test]
fn uniquify_dedupes_rel_and_abs_spellings_of_one_file() {
    let out = uniquify_wire_names(vec![
        existing("f.txt", "f.txt", "/tmp/x/f.txt"),
        existing("f.txt", "/tmp/x/f.txt", "/tmp/x/f.txt"),
    ])
    .unwrap();
    assert_eq!(wire_names(&out.entries), ["f.txt"]);
    assert_eq!(out.dropped.len(), 1);
}

#[test]
fn uniquify_error_names_the_conflicting_disk_paths() {
    // `..` cannot appear in a wire name, so neither path has usable
    // parent components -- and neither file exists, so canonicalization
    // cannot prove they are the same file. Refusing is the safe default,
    // and the error must name the disk paths, not a synthesized wire name.
    let a = "/tmp/x/a/../ref.md";
    let b = "/tmp/x/b/../ref.md";
    let err = uniquify_wire_names(vec![entry("ref.md", a), entry("ref.md", b)]).unwrap_err();
    let msg = err.message();
    assert!(msg.contains("duplicate file name"), "{msg}");
    assert!(msg.contains(a), "{msg}");
    assert!(msg.contains(b), "{msg}");
}

#[test]
fn walk_dir_collects_files() {
    let names = [
        walked_name("/tmp/x/mydir/a.txt", "/tmp/x"),
        walked_name("/tmp/x/mydir/sub/b.txt", "/tmp/x"),
    ];
    assert_eq!(names, ["mydir/a.txt", "mydir/sub/b.txt"]);
}

#[test]
fn walk_dir_normalizes_dot_prefixed_names() {
    // `send -r .` -- base becomes "" and rel paths keep their leading `./`.
    let dir = SendPath {
        path: ".".to_string(),
        kind: PathKind::Directory { files: vec![walked("./f.txt", 1), walked("./sub/b.txt", 1)] },
    };
    let entries = gather(&vec![dir], true).unwrap();
    assert_eq!(wire_names(&entries), ["f.txt", "sub/b.txt"]);
}

#[test]
fn race_first_ready_skips_dead_and_picks_live() {
    let mut race = Race::new(2);
    let dead = GoOutcome::Skipped("gone".to_string());
    assert!(matches!(race.heard("receiver", dead), RaceStep::Wait));
    assert!(matches!(race.heard("receiver", GoOutcome::Paired), RaceStep::Won));
}

#[test]
fn race_first_ready_all_dead_returns_none() {
    let mut race = Race::new(3);
    assert!(matches!(race.closed("sender"), RaceStep::Wait));
    assert!(matches!(race.closed("sender"), RaceStep::Wait));
    match race.closed("sender") {
        RaceStep::Lost(why) => assert_eq!(why, unpaired_message("sender", &vec![])),
        _ => panic!("nobody is left"),
    }
}

#[test]
fn race_first_ready_propagates_hard_error() {
    let mut race = Race::new(1);
    match race.heard("receiver", classify_go(Ok(0x7f), None)) {
        RaceStep::Abort(why) => assert!(why.contains("unexpected signal")),
        _ => panic!("a byte that makes no sense ends the race"),
    }
}

#[test]
fn reasons_add_up_when_everybody_declines() {
    let mut race = Race::new(2);
    let _ = race.heard("receiver", classify_go(Ok(TRANSFER_GO_BUSY), Some("a:0")));
    match race.heard("receiver", classify_go(Err(()), Some("b:0"))) {
        RaceStep::Lost(why) => assert_eq!(
            why,
            "no receiver paired: a:0: busy with another transfer; b:0: closed before pairing"
        ),
        _ => panic!("nobody is left"),
    }
}

#[test]
fn receive_to_writer_flushes_tail() {
    let payload = [0xDEu8, 0xAD, 0xBE, 0xEF]; // no trailing newline
    let out = receive(&encode_one_file("a.bin", &payload), 64 * 1024, false);
    assert_eq!(out.end, Ok(()));
    assert_eq!(out.received, 1);
    assert_eq!(out.files[0].2, payload);
}

#[test]
fn receive_to_writer_concats_multiple_files() {
    let mut input = encode_entry("a", b"hello", 0);
    input.extend(encode_entry("b", b"world", 0));
    input.extend_from_slice(&0u16.to_be_bytes());
    for buffer in [1, 2, 3, 64] {
        let out = receive(&input, buffer, false);
        assert_eq!(out.received, 2);
        let all: Vec<u8> = out.files.iter().flat_map(|f| f.2.clone()).collect();
        assert_eq!(all, b"helloworld");
    }
}

#[test]
fn receive_to_dir_writes_files_and_leaves_no_temporaries() {
    let mut input = encode_entry("a.txt", b"aaa", 0o600);
    input.extend(encode_entry("empty", b"", 0));
    input.extend(encode_entry("sub/b.sh", b"#!/bin/sh\n", 0o755));
    input.extend_from_slice(&0u16.to_be_bytes());
    let out = receive(&input, 4, true);
    assert_eq!(out.end, Ok(()));
    assert_eq!(out.received, 3);
    assert_eq!(out.files[0], ("a.txt".to_string(), 0o600, b"aaa".to_vec()));
    assert_eq!(out.files[1], ("empty".to_string(), 0, vec![]));
    assert_eq!(out.files[2], ("sub/b.sh".to_string(), 0o755, b"#!/bin/sh\n".to_vec()));
    assert_eq!(receive_mode(out.files[0].1), 0o600);
    assert_eq!(receive_mode(out.files[1].1), 0o644);
    assert_eq!(receive_mode(0o100755), 0o755);
}

#[test]
fn interrupted_receive_keeps_the_old_file_and_names_the_casualty() {
    // Header promises 1000 bytes; the sender dies after 10.
    let mut input = encode_entry("big.bin", &[7u8; 1000], 0o644);
    input.truncate(input.len() - 990);
    let out = receive(&input, 64 * 1024, true);
    let msg = out.end.unwrap_err();
    assert!(msg.contains("big.bin"), "{msg}");
    assert!(msg.contains("10 B") && msg.contains("1000 B"), "must say how far it got: {msg}");
    assert_eq!(out.received, 0, "nothing is complete");
    assert_eq!(receive(&input, 64, false).end.unwrap_err(), "unexpected end of file");
}

#[test]
fn names_that_lead_out_are_refused() {
    for name in ["/etc/passwd", "a/../b", ".."] {
        let out = receive(&encode_one_file(name, b"x"), 64, true);
        assert!(out.end.is_err() && out.files.is_empty(), "{name}");
    }
    let mut bad = vec![0u8, 2, 0xff, 0xfe];
    bad.extend_from_slice(&[0; 12]);
    let out = receive(&bad, 64, true);
    assert!(out.end.unwrap_err().contains("utf-8"));
}

/// The next announcement, and the bytes that are left then.
fn read_header(bytes: &[u8]) -> (HeaderStep, &[u8]) {
    let mut state = HeaderState::new();
    let mut left = bytes;
    loop {
        let (piece, rest) = left.split_at(state.need());
        left = rest;
        match state.feed(piece.to_vec()) {
            HeaderStep::More => {}
            step => return (step, left),
        }
    }
}

#[test]
fn announced_files_are_read_back_in_order() {
    let sized = |name: &str, size: u64, mode: u32| SendEntry { size, mode, ..entry(name, name) };
    let long = "n".repeat(65535);
    let entries = vec![
        sized("a", 0, 0o644),
        sized("dir/\u{e9}t\u{e9}.txt", u64::MAX, 0o755),
        sized(&long, 7, u32::MAX),
        sized("a", 1, 0),
    ];
    let mut bytes = send_manifest(&entries);
    bytes.extend([0, 0, 9, 9]);
    assert_eq!(read_u32(&bytes[..4].to_vec()), 4);
    let mut left = &bytes[4..];
    for e in &entries {
        let (step, rest) = read_header(left);
        left = rest;
        match step {
            HeaderStep::Entry { name, size, mode } => {
                assert_eq!((&name, size, mode), (&e.name, e.size, e.mode))
            }
            _ => panic!("not a file"),
        }
    }
    let (step, rest) = read_header(left);
    assert!(matches!(step, HeaderStep::End));
    assert_eq!(rest, [9, 9]);
}

#[test]
fn bad_names_are_refused_when_they_are_read() {
    for (name, why) in [
        ("../x", "'..' not allowed in path: ../x"),
        ("/etc/x", "absolute path not allowed: /etc/x"),
    ] {
        let bytes = send_manifest(&vec![entry(name, "x")]);
        let (step, rest) = read_header(&bytes[4..]);
        assert!(matches!(step, HeaderStep::Error(e) if e == why));
        assert_eq!(rest.len(), 12);
    }
    let (step, rest) = read_header(&[0, 2, 0xff, b'a', 5]);
    assert!(matches!(step, HeaderStep::Error(e) if e.contains("utf-8")));
    assert_eq!(rest, [5]);
}

#[test]
fn manifest_tells_count_name_size_and_mode() {
    let mut e = entry("a.txt", "x/a.txt");
    e.size = 258;
    let bytes = send_manifest(&vec![e]);
    let mut expected = vec![0, 0, 0, 1, 0, 5];
    expected.extend_from_slice(b"a.txt");
    expected.extend_from_slice(&[0, 0, 0, 0, 0, 0, 1, 2]);
    expected.extend_from_slice(&0o644u32.to_be_bytes());
    assert_eq!(bytes, expected);
    assert_eq!(file_count(&bytes[..4].to_vec()), 1);
    assert_eq!(file_count(&vec![1, 2, 3, 4]), 0x0102_0304);
}

#[test]
fn send_needs_something_to_send() {
    assert_eq!(
        send_args_error(true, 1).unwrap(),
        "cannot send stdin (`-`) together with file arguments"
    );
    assert_eq!(send_args_error(false, 0).unwrap(), "provide files to send (use - for stdin)");
    assert_eq!(send_args_error(true, 0), None);
    assert_eq!(send_args_error(false, 2), None);
}

#[test]
fn planned_files_are_gathered_and_named() {
    let plan = plan_files(&vec![file("a/ref.md", 1), file("b/ref.md", 2)], false).unwrap();
    assert_eq!(wire_names(&plan.manifest), ["a/ref.md", "b/ref.md"]);
    assert_eq!(
        plan.notes,
        ["duplicate names disambiguated: sending a/ref.md as a/ref.md, b/ref.md as b/ref.md"]
    );
    let plan = plan_files(&vec![file("a/x", 1), file("a/x", 1)], false).unwrap();
    assert_eq!(plan.notes, ["skipping a/x: same file as a/x"]);
    assert_eq!(plan.manifest.len(), 1);
    assert!(!names_conflict(&words(&["x"])));
    assert!(names_conflict(&words(&["x", "x/y"])));
}

#[test]
fn files_that_cannot_be_sent_are_named() {
    let refuse = |path: &str, kind: PathKind| {
        let all = vec![SendPath { path: path.to_string(), kind }];
        plan_files(&all, false).err().unwrap()
    };
    assert_eq!(refuse("x", PathKind::Missing("not found".to_string())), "x: not found");
    assert_eq!(refuse("/dev/null", PathKind::Special), "/dev/null: not a regular file");
    let dir = PathKind::Directory { files: vec![walked("d/x", 1)] };
    assert!(refuse("d", dir).starts_with("d: is a directory (use -r to send recursively"));
    assert_eq!(plan_files(&vec![], true).err().unwrap(), "no files to send");
    let empty = SendPath { path: "d".to_string(), kind: PathKind::Directory { files: vec![] } };
    assert_eq!(plan_files(&vec![empty], true).err().unwrap(), "no files to send");
    assert_eq!(sanitize_basename("..").unwrap_err(), "invalid filename: ..");
}

#[test]
fn stdin_travels_as_a_file() {
    let plan = plan_stdin(42);
    assert_eq!(wire_names(&plan.manifest), ["stdin"]);
    assert_eq!((plan.manifest[0].size, plan.manifest[0].mode), (42, 0o644));
    assert!(plan.notes[0].contains("`stdin`"));
    assert_eq!(sending_stdin_line(2048), "sending stdin (2 KiB)");
}

#[test]
fn sending_says_how_much() {
    let mut a = entry("a", "a");
    a.size = 1024;
    let mut b = entry("long-name", "b");
    b.size = 1024;
    let all = vec![a, b];
    assert_eq!(sending_line(&all), "sending 2 files (2 KiB)");
    assert_eq!(name_width(&all), 9);
    assert_eq!(next_chunk(10, 64), 10);
    assert_eq!(next_chunk(100, 64), 64);
    assert_eq!(remaining_after("a", 100, 64), Ok(36));
    assert_eq!(remaining_after("a", 100, 0), Err("unexpected EOF reading a".to_string()));
}

#[test]
fn the_bar_is_full_only_at_the_end() {
    assert!(progress_line("a", 1, 100, 100, false).contains(&"=".repeat(20)));
    assert!(!progress_line("a", 1, 99, 100, false).contains(&"=".repeat(20)));
    assert!(progress_line("a", 1, 0, 0, false).contains("100%"));
    assert!(progress_line("a", 1, 50, 100, true).contains("\x1b[32m==========\x1b[2m----------"));
    assert!(redraws(true, 100, 100, 0));
    assert!(redraws(true, 1, 100, 50));
    assert!(!redraws(true, 1, 100, 49));
    assert!(!redraws(false, 100, 100, 60));
}

#[test]
fn discovery_says_why_there_is_nothing() {
    let none = discovery_result(0, vec![], false).err().unwrap();
    assert!(none.contains("neither a local server nor any tunnel"), "{none}");
    assert_eq!(discovery_result(1, vec![], false).err().unwrap(), "no active sessions");
    let old = discovery_result(1, vec![], true).err().unwrap();
    assert!(old.contains("gritty refresh"), "{old}");
    let outcomes = vec![
        ProbeOutcome::VersionMismatch,
        ProbeOutcome::Unavailable,
        ProbeOutcome::Sessions { server_id: 7, sessions: vec![ds("a/0", "/t/ctl.sock")] },
    ];
    let (answers, mismatch) = sort_outcomes(outcomes);
    assert!(mismatch);
    assert_eq!(discovery_result(3, answers, mismatch).ok().unwrap().len(), 1);
}

fn listed(id: u32, name: &str) -> SessionEntry {
    SessionEntry {
        id,
        name: name.to_string(),
        pty_path: String::new(),
        shell_pid: 1,
        created_at: 0,
        attached: false,
        last_heartbeat: 0,
        foreground_cmd: String::new(),
        cwd: String::new(),
        client_name: String::new(),
        agent_forwarding_active: false,
        is_last_attached: false,
        last_activity: 0,
    }
}

#[test]
fn discovered_sessions_keep_their_route() {
    let found = discovered(&vec![listed(3, ""), listed(4, "me/work")], "/t/ctl.sock");
    assert_eq!(found[0].wire_name, "3");
    assert_eq!(found[1].wire_name, "me/work");
    assert!(found.iter().all(|d| d.ctl_path == "/t/ctl.sock"));
}

#[test]
fn transfers_go_where_they_are_told() {
    let cfg = ConfigFile::default();
    let plan = |inside: Option<&str>, flag: Option<&str>| {
        plan_transfer(&cfg, "me", DIR, inside.map(String::from), None, flag.map(String::from))
    };
    assert_eq!(
        plan(Some("/s"), Some("local:0")).err().unwrap(),
        "cannot specify --session inside a session"
    );
    assert_eq!(
        plan(None, Some("local")).err().unwrap(),
        "--session requires host:session (e.g. local:0)"
    );
    assert!(matches!(plan(None, None), Ok(TransferVia::Any)));
    assert!(matches!(plan(Some("/s"), None), Ok(TransferVia::Inside { .. })));
    match plan(None, Some("devbox:me/work")) {
        Ok(TransferVia::One { ctl_path, session, label }) => {
            assert!(ctl_path.ends_with("connect-devbox.sock"), "{ctl_path}");
            assert_eq!(session, "me/work");
            assert_eq!(label, "devbox:work");
        }
        _ => panic!("a named session is used"),
    }
    assert_eq!(session_label_for(&cfg, "me", "devbox", "me/work"), "devbox:work");
    let socket = || Some("/other/ctl.sock".to_string());
    match plan_transfer(&cfg, "me", DIR, None, socket(), None) {
        Ok(TransferVia::Server { ctl_path }) => assert_eq!(ctl_path, "/other/ctl.sock"),
        _ => panic!("a named socket is used"),
    }
}

#[test]
fn only_a_server_of_this_version_is_asked_for_its_sessions() {
    let none: Vec<SessionEntry> = vec![];
    let asked = |version: u16, listed: Option<&Vec<SessionEntry>>| {
        probe_outcome(version, 9, listed, "/t/ctl.sock")
    };
    assert!(matches!(
        asked(PROTOCOL_VERSION, Some(&none)),
        ProbeOutcome::Sessions { server_id: 9, sessions } if sessions.is_empty()
    ));
    assert!(matches!(asked(PROTOCOL_VERSION, None), ProbeOutcome::Unavailable));
    assert!(matches!(asked(PROTOCOL_VERSION + 1, Some(&none)), ProbeOutcome::VersionMismatch));
}

#[test]
fn offers_report_their_fate() {
    assert_eq!(skipped_session_line(Some("a:0"), "broken pipe"), "skipping session a:0: broken pipe");
    assert_eq!(skipped_session_line(None, "x"), "skipping session ?: x");
    assert_eq!(offer_result(0, "receiver"), Err("no reachable receiver sessions".to_string()));
    assert_eq!(offer_result(1, "sender"), Ok(()));
    assert_eq!(paired_line("a:0"), "paired with session a:0");
    assert_eq!(transfer_reply(ServerReply::Granted, ""), Ok(()));
    let failed = ServerReply::Failed { code: ErrorCode::Other, message: "boom".to_string() };
    assert_eq!(transfer_reply(failed, ""), Err("boom".to_string()));
    assert_eq!(
        transfer_reply(ServerReply::Unexpected, "Pong"),
        Err("unexpected response: Pong".to_string())
    );
}

#[test]
fn received_files_are_put_beside_their_place_first() {
    assert_eq!(tmp_path_for("/out/sub/a.txt"), "/out/sub/.a.txt.gritty-partial");
    assert_eq!(tmp_path_for("a.txt"), ".a.txt.gritty-partial");
    assert_eq!(receive_dir(None), ".");
    assert_eq!(receive_dir(Some("out".to_string())), "out");
    assert_eq!(receive_dir_error(false, "out", false).unwrap(), "out: not a directory");
    assert_eq!(receive_dir_error(true, "out", false), None);
    assert_eq!(receive_dir_error(false, "out", true), None);
    assert_eq!(receive_request("out"), "out\n");
    assert_eq!(receiving_line(1), "receiving 1 file");
    assert_eq!(received_line(0, "out"), "no files received");
    assert_eq!(received_line(2, "out"), "received 2 files into out");
    assert_eq!(replacing_line("a"), "replacing existing a");
}
