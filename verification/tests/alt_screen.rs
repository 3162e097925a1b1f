use gritty::alt_screen::AltScreenTracker;

#[test]
fn initially_not_in_alternate_screen() {
    let t = AltScreenTracker::new();
    assert!(!t.in_alternate_screen());
}

#[test]
fn enter_standard_alternate_screen() {
    let mut t = AltScreenTracker::new();
    t.scan(b"\x1b[?1049h");
    assert!(t.in_alternate_screen());
}

#[test]
fn leave_standard_alternate_screen() {
    let mut t = AltScreenTracker::new();
    t.scan(b"\x1b[?1049h");
    assert!(t.in_alternate_screen());
    t.scan(b"\x1b[?1049l");
    assert!(!t.in_alternate_screen());
}

#[test]
fn legacy_47() {
    let mut t = AltScreenTracker::new();
    t.scan(b"\x1b[?47h");
    assert!(t.in_alternate_screen());
    t.scan(b"\x1b[?47l");
    assert!(!t.in_alternate_screen());
}

#[test]
fn legacy_1047() {
    let mut t = AltScreenTracker::new();
    t.scan(b"\x1b[?1047h");
    assert!(t.in_alternate_screen());
    t.scan(b"\x1b[?1047l");
    assert!(!t.in_alternate_screen());
}

#[test]
fn sequence_spanning_chunks() {
    let mut t = AltScreenTracker::new();
    t.scan(b"\x1b[?10");
    assert!(!t.in_alternate_screen());
    t.scan(b"49h");
    assert!(t.in_alternate_screen());
}

#[test]
fn sequence_split_at_every_byte() {
    let seq = b"\x1b[?1049h";
    for split in 1..seq.len() {
        let mut t = AltScreenTracker::new();
        t.scan(&seq[..split]);
        t.scan(&seq[split..]);
        assert!(t.in_alternate_screen(), "failed splitting at byte {split}");
    }
}

#[test]
fn interleaved_with_normal_data() {
    let mut t = AltScreenTracker::new();
    t.scan(b"hello world\x1b[?1049hsome TUI content");
    assert!(t.in_alternate_screen());
}

#[test]
fn unrelated_csi_does_not_trigger() {
    let mut t = AltScreenTracker::new();
    t.scan(b"\x1b[?25h"); // show cursor
    assert!(!t.in_alternate_screen());
    t.scan(b"\x1b[2J"); // clear screen (not a ?-mode sequence)
    assert!(!t.in_alternate_screen());
}

#[test]
fn multi_param_csi_with_alt_screen() {
    let mut t = AltScreenTracker::new();
    // Some terminals send multiple params separated by ;
    t.scan(b"\x1b[?1049;1h");
    assert!(t.in_alternate_screen());
}

#[test]
fn param_overflow_resets() {
    let mut t = AltScreenTracker::new();
    // More digits than the buffer can hold -- should reset gracefully
    t.scan(b"\x1b[?1234567890h");
    assert!(!t.in_alternate_screen());
}

#[test]
fn multiple_transitions() {
    let mut t = AltScreenTracker::new();
    t.scan(b"\x1b[?1049h");
    assert!(t.in_alternate_screen());
    t.scan(b"\x1b[?1049l");
    assert!(!t.in_alternate_screen());
    t.scan(b"\x1b[?1049h");
    assert!(t.in_alternate_screen());
    t.scan(b"\x1b[?1049l");
    assert!(!t.in_alternate_screen());
}

#[test]
fn incomplete_sequence_then_normal_data() {
    let mut t = AltScreenTracker::new();
    t.scan(b"\x1b[?10");
    t.scan(b"hello"); // not a valid continuation
    assert!(!t.in_alternate_screen());
    // Tracker should have reset -- a real sequence should still work
    t.scan(b"\x1b[?1049h");
    assert!(t.in_alternate_screen());
}

#[test]
fn any_of_several_modes_switches() {
    let mut t = AltScreenTracker::new();
    t.scan(b"\x1b[?1049;1h");
    assert!(t.in_alternate_screen());
    t.scan(b"\x1b[?1049;1l");
    assert!(!t.in_alternate_screen());
    t.scan(b"\x1b[?25;1047h");
    assert!(t.in_alternate_screen());
    t.scan(b"\x1b[?1;25l");
    assert!(t.in_alternate_screen());
    t.scan(b"\x1b[?1;47;25l");
    assert!(!t.in_alternate_screen());
}

#[test]
fn a_sequence_can_cut_another_short() {
    let mut t = AltScreenTracker::new();
    t.scan(b"\x1b[?10\x1b[?1049h");
    assert!(t.in_alternate_screen());
    t.scan(b"\x1b[\x1b\x1b[?1049l");
    assert!(!t.in_alternate_screen());
}

#[test]
fn bad_parameters_drop_the_sequence() {
    for dropped in
        [&b"\x1b[?;47h"[..], b"\x1b[?123456789;47h", b"\x1b[?25;;47h", b"\x1b[?h", b"\x1b[?47x"]
    {
        let mut t = AltScreenTracker::new();
        t.scan(dropped);
        assert!(!t.in_alternate_screen(), "{dropped:?}");
        t.scan(b"\x1b[?1049h");
        t.scan(&dropped.iter().map(|b| if *b == b'h' { b'l' } else { *b }).collect::<Vec<u8>>());
        assert!(t.in_alternate_screen(), "{dropped:?}");
    }
    let mut t = AltScreenTracker::new();
    t.scan(b"\x1b[?12345678;47h");
    assert!(t.in_alternate_screen());
    t.scan(b"\x1b[?47;12345678l");
    assert!(!t.in_alternate_screen());
    // What stood before the bad parameter was entered.
    t.scan(b"\x1b[?1049;123456789h");
    assert!(t.in_alternate_screen());
}
