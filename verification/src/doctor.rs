//! `doctor`: what is looked at, and what is said about it.

use vstd::prelude::*;
use crate::client;
use crate::client::parse_forward_socket_name;
use crate::config::{holds, ConfigStatus};
use crate::connect;
use crate::connect::{connect_log_path, connect_out_path, TunnelStatus};
use crate::forward::FoundFile;
use crate::order;
use crate::order::{sort_by_keys, sort_texts, sorted_set, SortKey};
use crate::paths;
use crate::paths::join_path;
use crate::protocol::{ErrorCode, SessionEntry, PROTOCOL_VERSION};
use crate::runinfo;
use crate::runinfo::Staleness;
use crate::sessions;
use crate::sessions::session_wire_name;
use crate::text;
use crate::text::{
    after_prefix,
    before_suffix,
    cat2,
    cat3,
    cat4,
    cat5,
    cat7,
    contains,
    copy,
    count_text,
    cut_at_last,
    decimal_text,
    ends_with,
    join_texts,
    pad_right,
    parse_unsigned,
    same,
    starts_with,
};

verus! {

/// How a check came out.
#[derive(Clone, Copy, Debug, PartialEq, Eq, Structural)]
pub enum Status {
    Good,
    Warn,
    Fail,
}

pub open spec fn tag_text(s: Status) -> Seq<char> {
    match s {
        Status::Good => "ok"@,
        Status::Warn => "warn"@,
        Status::Fail => "fail"@,
    }
}

pub open spec fn symbol_text(s: Status) -> Seq<char> {
    match s {
        Status::Good => "\x1b[32m\u{2713}\x1b[0m"@,
        Status::Warn => "\x1b[33m!\x1b[0m"@,
        Status::Fail => "\x1b[31m\u{2717}\x1b[0m"@,
    }
}

impl Status {
    /// The outcome as a word.
    pub fn tag(self) -> (r: &'static str)
        ensures
            r@ == tag_text(self),
    {
        match self {
            Status::Good => "ok",
            Status::Warn => "warn",
            Status::Fail => "fail",
        }
    }

    /// The outcome as a coloured sign.
    pub fn symbol(self) -> (r: &'static str)
        ensures
            r@ == symbol_text(self),
    {
        match self {
            Status::Good => "\x1b[32m\u{2713}\x1b[0m",
            Status::Warn => "\x1b[33m!\x1b[0m",
            Status::Fail => "\x1b[31m\u{2717}\x1b[0m",
        }
    }
}

/// What a check found, and what can be done about it.
pub struct Check {
    pub status: Status,
    pub message: String,
    pub hint: Option<String>,
}

/// What a check found, as a value.
pub struct Finding {
    pub status: Status,
    pub message: Seq<char>,
    pub hint: Option<Seq<char>>,
}

impl View for Check {
    type V = Finding;

    open spec fn view(&self) -> Finding {
        Finding { status: self.status, message: self.message@, hint: text::owned_view(self.hint) }
    }
}

pub open spec fn findings(v: Seq<Check>) -> Seq<Finding> {
    v.map_values(|c: Check| c@)
}

pub open spec fn good(message: Seq<char>) -> Finding {
    Finding { status: Status::Good, message, hint: None }
}

pub open spec fn warning(message: Seq<char>) -> Finding {
    Finding { status: Status::Warn, message, hint: None }
}

pub open spec fn failure(message: Seq<char>) -> Finding {
    Finding { status: Status::Fail, message, hint: None }
}

pub open spec fn hinted(f: Finding, hint: Seq<char>) -> Finding {
    Finding { hint: Some(hint), ..f }
}

impl Check {
    pub fn ok(message: String) -> (r: Check)
        ensures
            r@ == good(message@),
    {
        Check { status: Status::Good, message, hint: None }
    }

    pub fn warn(message: String) -> (r: Check)
        ensures
            r@ == warning(message@),
    {
        Check { status: Status::Warn, message, hint: None }
    }

    pub fn fail(message: String) -> (r: Check)
        ensures
            r@ == failure(message@),
    {
        Check { status: Status::Fail, message, hint: None }
    }

    pub fn with_hint(self, hint: String) -> (r: Check)
        ensures
            r@ == hinted(self@, hint@),
    {
        Check { status: self.status, message: self.message, hint: Some(hint) }
    }
}

fn add_check(v: &mut Vec<Check>, c: Check)
    ensures
        findings(final(v)@) == findings(old(v)@).push(c@),
{
    let ghost before = v@;
    let ghost cv = c@;
    v.push(c);
    assert(findings(v@) =~= findings(before).push(cv));
}

/// Checks under one title.
pub struct CheckGroup {
    pub title: String,
    pub checks: Vec<Check>,
}

/// A place worth knowing, and whether anything is there.
pub struct PathLine {
    pub label: String,
    pub path: String,
    pub exists: bool,
}

/// What is said of a process that runs another program than the one on disk;
/// nothing where there is no difference, or no record to tell.
pub open spec fn stale_finding(
    stale: Option<runinfo::Difference>,
    label: Seq<char>,
    hint: Seq<char>,
) -> Seq<Finding> {
    match stale {
        Some(d) => {
            let message = label + ": "@ + runinfo::difference_text(d);
            seq![
                hinted(
                    if d is Protocol {
                        failure(message)
                    } else {
                        warning(message)
                    },
                    hint,
                ),
            ]
        },
        None => seq![],
    }
}

/// Add what there is to say of a process that runs another program.
pub fn check_staleness(
    stale: &Option<Staleness>,
    label: &str,
    stale_hint: &str,
    checks: &mut Vec<Check>,
)
    ensures
        findings(final(checks)@) == findings(old(checks)@) + stale_finding(
            runinfo::staleness_view(*stale),
            label@,
            stale_hint@,
        ),
{
    let ghost before = findings(checks@);
    match stale {
        Some(s) => {
            let message = cat3(label, ": ", s.message().as_str());
            let c = match s {
                Staleness::Protocol { .. } => Check::fail(message),
                Staleness::Build { .. } => Check::warn(message),
            };
            add_check(checks, c.with_hint(copy(stale_hint)));
            assert(findings(checks@) =~= before + stale_finding(
                runinfo::staleness_view(*stale),
                label@,
                stale_hint@,
            ));
        },
        None => {
            assert(findings(checks@) =~= before + Seq::<Finding>::empty());
        },
    }
}

pub open spec fn check_text(c: Check) -> Seq<char> {
    "  "@ + symbol_text(c.status) + " "@ + c.message@ + "\n"@ + (match c.hint {
        Some(h) => "    \x1b[2m\u{2192} "@ + h@ + "\x1b[0m\n"@,
        None => ""@,
    })
}

pub open spec fn checks_text(v: Seq<Check>) -> Seq<char>
    decreases v.len(),
{
    if v.len() == 0 {
        seq![]
    } else {
        checks_text(v.drop_last()) + check_text(v.last())
    }
}

/// The groups that found anything, with blank lines between them.
pub open spec fn groups_text(groups: Seq<CheckGroup>) -> Seq<char>
    decreases groups.len(),
{
    if groups.len() == 0 {
        seq![]
    } else {
        let rest = groups_text(groups.drop_last());
        let g = groups.last();
        if g.checks@.len() == 0 {
            rest
        } else {
            rest + (if rest.len() == 0 {
                ""@
            } else {
                "\n"@
            }) + (g.title@ + "\n"@ + checks_text(g.checks@))
        }
    }
}

/// How many of the checks came out in some way.
pub open spec fn count_in(v: Seq<Check>, status: Status) -> nat
    decreases v.len(),
{
    if v.len() == 0 {
        0
    } else {
        count_in(v.drop_last(), status) + (if v.last().status == status {
            1nat
        } else {
            0nat
        })
    }
}

/// How many of the checks of all groups came out in some way.
pub open spec fn count_all(groups: Seq<CheckGroup>, status: Status) -> nat
    decreases groups.len(),
{
    if groups.len() == 0 {
        0
    } else {
        count_all(groups.drop_last(), status) + count_in(groups.last().checks@, status)
    }
}

/// The last line: how many issues and warnings there are.
pub open spec fn verdict_text(fails: nat, warns: nat) -> Seq<char> {
    if fails == 0 && warns == 0 {
        "no issues found"@
    } else if fails == 0 {
        text::counted(warns, "warning"@)
    } else if warns == 0 {
        text::counted(fails, "issue"@)
    } else {
        text::counted(fails, "issue"@) + ", "@ + text::counted(warns, "warning"@)
    }
}

/// The checks as they are printed.
pub open spec fn render_text(groups: Seq<CheckGroup>) -> Seq<char> {
    groups_text(groups) + "\n"@ + verdict_text(
        count_all(groups, Status::Fail),
        count_all(groups, Status::Warn),
    ) + "\n"@
}

proof fn lemma_count_in(v: Seq<Check>, k: int, status: Status)
    requires
        0 <= k <= v.len(),
    ensures
        count_in(v.take(k), status) <= count_in(v, status),
    decreases v.len() - k,
{
    if k < v.len() {
        lemma_count_in(v, k + 1, status);
        assert(v.take(k + 1).drop_last() == v.take(k));
    } else {
        assert(v.take(k) == v);
    }
}

fn show_group(g: &CheckGroup) -> (r: String)
    ensures
        r@ == g.title@ + "\n"@ + checks_text(g.checks@),
{
    let mut r = cat2(g.title.as_str(), "\n");
    let ghost head = r@;
    let mut i: usize = 0;
    assert(g.checks@.take(0) == Seq::<Check>::empty());
    assert(head + Seq::<char>::empty() == head);
    while i < g.checks.len()
        invariant
            i <= g.checks@.len(),
            r@ == head + checks_text(g.checks@.take(i as int)),
        decreases g.checks@.len() - i,
    {
        assert(g.checks@.take(i + 1).drop_last() == g.checks@.take(i as int));
        assert(g.checks@.take(i + 1).last() == g.checks@[i as int]);
        let mut line = cat5(
            "  ",
            g.checks[i].status.symbol(),
            " ",
            g.checks[i].message.as_str(),
            "\n",
        );
        match &g.checks[i].hint {
            Some(h) => {
                line.append(cat3("    \x1b[2m\u{2192} ", h.as_str(), "\x1b[0m\n").as_str());
            },
            None => {
                line.append("");
            },
        }
        let ghost done = checks_text(g.checks@.take(i as int));
        assert(head + done + line@ == head + (done + line@));
        r.append(line.as_str());
        i = i + 1;
    }
    assert(g.checks@.take(i as int) == g.checks@);
    r
}

/// How many of the checks came out in some way, as far as a machine word
/// counts.
pub fn count_status(groups: &Vec<CheckGroup>, status: Status) -> (r: u64)
    requires
        count_all(groups@, status) <= u64::MAX,
    ensures
        r == count_all(groups@, status),
{
    let mut n: u64 = 0;
    let mut i: usize = 0;
    assert(groups@.take(0) == Seq::<CheckGroup>::empty());
    while i < groups.len()
        invariant
            i <= groups@.len(),
            count_all(groups@, status) <= u64::MAX,
            n == count_all(groups@.take(i as int), status),
        decreases groups@.len() - i,
    {
        assert(groups@.take(i + 1).drop_last() == groups@.take(i as int));
        assert(groups@.take(i + 1).last() == groups@[i as int]);
        proof {
            lemma_count_all(groups@, i + 1, status);
        }
        let mut k: usize = 0;
        let ghost start = n as int;
        let ghost here = groups@[i as int].checks@;
        assert(here.take(0) == Seq::<Check>::empty());
        while k < groups[i].checks.len()
            invariant
                i < groups@.len(),
                here == groups@[i as int].checks@,
                k <= here.len(),
                start + count_in(here, status) <= u64::MAX,
                n == start + count_in(here.take(k as int), status),
            decreases here.len() - k,
        {
            assert(here.take(k + 1).drop_last() == here.take(k as int));
            assert(here.take(k + 1).last() == here[k as int]);
            proof {
                lemma_count_in(here, k + 1, status);
            }
            if groups[i].checks[k].status == status {
                n = n + 1;
            }
            k = k + 1;
        }
        assert(here.take(k as int) == here);
        i = i + 1;
    }
    assert(groups@.take(i as int) == groups@);
    n
}

proof fn lemma_count_all(groups: Seq<CheckGroup>, k: int, status: Status)
    requires
        0 <= k <= groups.len(),
    ensures
        count_all(groups.take(k), status) <= count_all(groups, status),
    decreases groups.len() - k,
{
    if k < groups.len() {
        lemma_count_all(groups, k + 1, status);
        assert(groups.take(k + 1).drop_last() == groups.take(k));
    } else {
        assert(groups.take(k) == groups);
    }
}

fn counted_text(n: u64, word: &str) -> (r: String)
    ensures
        r@ == text::counted(n as nat, word@),
{
    let d = decimal_text(n);
    if n == 1 {
        cat3(d.as_str(), " ", word)
    } else {
        cat4(d.as_str(), " ", word, "s")
    }
}

/// The checks as they are printed.
pub fn render(groups: &Vec<CheckGroup>) -> (r: String)
    requires
        count_all(groups@, Status::Fail) <= u64::MAX,
        count_all(groups@, Status::Warn) <= u64::MAX,
    ensures
        r@ == render_text(groups@),
{
    let mut r = String::new();
    let mut i: usize = 0;
    assert(groups@.take(0) == Seq::<CheckGroup>::empty());
    while i < groups.len()
        invariant
            i <= groups@.len(),
            r@ == groups_text(groups@.take(i as int)),
        decreases groups@.len() - i,
    {
        assert(groups@.take(i + 1).drop_last() == groups@.take(i as int));
        assert(groups@.take(i + 1).last() == groups@[i as int]);
        if groups[i].checks.len() > 0 {
            let gap = if r.as_str().unicode_len() == 0 {
                ""
            } else {
                "\n"
            };
            let part = show_group(&groups[i]);
            r.append(gap);
            r.append(part.as_str());
        }
        i = i + 1;
    }
    assert(groups@.take(i as int) == groups@);
    let fails: u64 = count_status(groups, Status::Fail);
    let warns: u64 = count_status(groups, Status::Warn);
    let last = if fails == 0 && warns == 0 {
        copy("no issues found")
    } else if fails == 0 {
        counted_text(warns, "warning")
    } else if warns == 0 {
        counted_text(fails, "issue")
    } else {
        let a = counted_text(fails, "issue");
        let b = counted_text(warns, "warning");
        cat3(a.as_str(), ", ", b.as_str())
    };
    r.append("\n");
    r.append(last.as_str());
    r.append("\n");
    r
}

/// Whether any check failed.
pub fn has_failures(groups: &Vec<CheckGroup>) -> (r: bool)
    ensures
        r == exists|i: int, k: int|
            0 <= i < groups@.len() && 0 <= k < groups@[i].checks@.len() && (
            #[trigger] groups@[i].checks@[k]).status == Status::Fail,
{
    let mut i: usize = 0;
    while i < groups.len()
        invariant
            i <= groups@.len(),
            forall|a: int, k: int|
                0 <= a < i && 0 <= k < groups@[a].checks@.len() ==> (
                #[trigger] groups@[a].checks@[k]).status != Status::Fail,
        decreases groups@.len() - i,
    {
        let mut k: usize = 0;
        while k < groups[i].checks.len()
            invariant
                i < groups@.len(),
                k <= groups@[i as int].checks@.len(),
                forall|a: int, b: int|
                    0 <= a < i && 0 <= b < groups@[a].checks@.len() ==> (
                    #[trigger] groups@[a].checks@[b]).status != Status::Fail,
                forall|b: int|
                    0 <= b < k ==> (#[trigger] groups@[i as int].checks@[b]).status
                        != Status::Fail,
            decreases groups@[i as int].checks@.len() - k,
        {
            if groups[i].checks[k].status == Status::Fail {
                assert(groups@[i as int].checks@[k as int].status == Status::Fail);
                return true;
            }
            k = k + 1;
        }
        i = i + 1;
    }
    false
}

/// The places worth knowing, in order.
pub open spec fn known_places(
    config_path: Seq<char>,
    device_id_path: Seq<char>,
    ctl_path: Seq<char>,
    server_dir: Seq<char>,
) -> Seq<(Seq<char>, Seq<char>)> {
    seq![
        ("config file"@, config_path),
        ("socket dir"@, server_dir),
        ("server socket"@, ctl_path),
        ("device id"@, device_id_path),
        ("server log"@, paths::joined(server_dir, "daemon.log"@)),
        ("server output"@, paths::joined(server_dir, "daemon.out"@)),
    ]
}

/// The places worth knowing. Logs follow the directory of the server's socket.
pub fn path_report(
    config_path: &str,
    device_id_path: &str,
    ctl_path: &str,
    server_dir: &str,
) -> (r: Vec<(String, String)>)
    ensures
        r@.map_values(|p: (String, String)| (p.0@, p.1@)) == known_places(
            config_path@,
            device_id_path@,
            ctl_path@,
            server_dir@,
        ),
{
    let r = vec![
        (copy("config file"), copy(config_path)),
        (copy("socket dir"), copy(server_dir)),
        (copy("server socket"), copy(ctl_path)),
        (copy("device id"), copy(device_id_path)),
        (copy("server log"), join_path(server_dir, "daemon.log")),
        (copy("server output"), join_path(server_dir, "daemon.out")),
    ];
    assert(r@.map_values(|p: (String, String)| (p.0@, p.1@)) =~= known_places(
        config_path@,
        device_id_path@,
        ctl_path@,
        server_dir@,
    ));
    r
}

/// The width of the labels.
pub open spec fn label_width(v: Seq<PathLine>) -> usize
    decreases v.len(),
{
    if v.len() == 0 {
        0
    } else {
        let rest = label_width(v.drop_last());
        let here = vstd::utf8::encode_utf8(v.last().label@).len() as usize;
        if here > rest {
            here
        } else {
            rest
        }
    }
}

pub open spec fn place_lines(v: Seq<PathLine>, width: usize) -> Seq<char>
    decreases v.len(),
{
    if v.len() == 0 {
        seq![]
    } else {
        let p = v.last();
        place_lines(v.drop_last(), width) + ("  "@ + text::padded(p.label@, width as nat) + "  "@
            + p.path@ + (if p.exists {
            "\n"@
        } else {
            " \x1b[2m(not found)\x1b[0m\n"@
        }))
    }
}

/// The places as they are printed.
pub fn render_paths(v: &Vec<PathLine>) -> (r: String)
    ensures
        r@ == "Paths\n"@ + place_lines(v@, label_width(v@)),
{
    let mut width: usize = 0;
    let mut i: usize = 0;
    assert(v@.take(0) == Seq::<PathLine>::empty());
    while i < v.len()
        invariant
            i <= v@.len(),
            width == label_width(v@.take(i as int)),
        decreases v@.len() - i,
    {
        assert(v@.take(i + 1).drop_last() == v@.take(i as int));
        assert(v@.take(i + 1).last() == v@[i as int]);
        let here: usize = v[i].label.as_str().len();
        if here > width {
            width = here;
        }
        i = i + 1;
    }
    assert(v@.take(i as int) == v@);
    let mut r = copy("Paths\n");
    let ghost head = r@;
    let mut k: usize = 0;
    assert(head + Seq::<char>::empty() == head);
    while k < v.len()
        invariant
            k <= v@.len(),
            r@ == head + place_lines(v@.take(k as int), width),
        decreases v@.len() - k,
    {
        assert(v@.take(k + 1).drop_last() == v@.take(k as int));
        assert(v@.take(k + 1).last() == v@[k as int]);
        let label = pad_right(v[k].label.as_str(), width);
        let end = if v[k].exists {
            "\n"
        } else {
            " \x1b[2m(not found)\x1b[0m\n"
        };
        let line = cat5("  ", label.as_str(), "  ", v[k].path.as_str(), end);
        let ghost done = place_lines(v@.take(k as int), width);
        assert(head + done + line@ == head + (done + line@));
        r.append(line.as_str());
        k = k + 1;
    }
    assert(v@.take(k as int) == v@);
    r
}

/// What the socket directory is.
pub enum DirFacts {
    Missing,
    Unreadable(String),
    Symlink,
    NotDirectory,
    Directory { mode: u32, uid: u32, my_uid: u32 },
}

pub open spec fn octal_digit(d: u32) -> char {
    (0x30 + d) as char
}

/// Permission bits as four octal digits.
pub open spec fn mode_text(mode: u32) -> Seq<char> {
    let m = mode % 512;
    seq!['0', octal_digit(m / 64), octal_digit((m / 8) % 8), octal_digit(m % 8)]
}

fn show_mode(mode: u32) -> (r: String)
    ensures
        r@ == mode_text(mode),
{
    let m: u32 = mode % 512;
    let mut r = String::new();
    r.push('0');
    r.push((0x30 + (m / 64) as u8) as char);
    r.push((0x30 + ((m / 8) % 8) as u8) as char);
    r.push((0x30 + (m % 8) as u8) as char);
    assert(r@ =~= mode_text(mode));
    r
}

/// What there is to say of the config file.
pub open spec fn config_finding(s: ConfigStatus) -> Finding {
    match s {
        ConfigStatus::NotFound => good("no config file (using defaults)"@),
        ConfigStatus::Valid(c) => if c.host@.len() == 0 {
            good("config valid"@)
        } else {
            good("config valid ("@ + text::counted(c.host@.len(), "host"@) + ")"@)
        },
        ConfigStatus::Invalid(e) => failure("config invalid: "@ + e@),
    }
}

/// What there is to say of the socket directory: it must be a directory of
/// one's own that nobody else can enter.
pub open spec fn dir_finding(d: DirFacts, socket_dir: Seq<char>) -> Finding {
    match d {
        DirFacts::Missing => good("socket directory does not exist yet (created on first use)"@),
        DirFacts::Unreadable(e) => failure("cannot stat socket directory: "@ + e@),
        DirFacts::Symlink => failure("socket directory is a symlink: "@ + socket_dir),
        DirFacts::NotDirectory => failure("socket path is not a directory: "@ + socket_dir),
        DirFacts::Directory { mode, uid, my_uid } => if uid != my_uid {
            failure(
                "socket directory owned by uid "@ + text::decimal(uid as nat) + ", expected "@
                    + text::decimal(my_uid as nat),
            )
        } else if mode % 512 != 448 {
            warning("socket directory permissions "@ + mode_text(mode) + " (expected 0700)"@)
        } else {
            good("socket directory permissions ok"@)
        },
    }
}

/// Look at the config file and the socket directory.
pub fn check_config(status: &ConfigStatus, dir: &DirFacts, socket_dir: &str) -> (r: Vec<Check>)
    ensures
        findings(r@) == seq![config_finding(*status), dir_finding(*dir, socket_dir@)],
{
    let a = match status {
        ConfigStatus::NotFound => Check::ok(copy("no config file (using defaults)")),
        ConfigStatus::Valid(c) => if c.host.len() == 0 {
            Check::ok(copy("config valid"))
        } else {
            let n = count_text(c.host.len(), "host");
            Check::ok(cat3("config valid (", n.as_str(), ")"))
        },
        ConfigStatus::Invalid(e) => Check::fail(cat2("config invalid: ", e.as_str())),
    };
    let b = match dir {
        DirFacts::Missing => Check::ok(
            copy("socket directory does not exist yet (created on first use)"),
        ),
        DirFacts::Unreadable(e) => Check::fail(cat2("cannot stat socket directory: ", e.as_str())),
        DirFacts::Symlink => Check::fail(cat2("socket directory is a symlink: ", socket_dir)),
        DirFacts::NotDirectory => Check::fail(
            cat2("socket path is not a directory: ", socket_dir),
        ),
        DirFacts::Directory { mode, uid, my_uid } => if *uid != *my_uid {
            let x = decimal_text(*uid as u64);
            let y = decimal_text(*my_uid as u64);
            Check::fail(
                cat4("socket directory owned by uid ", x.as_str(), ", expected ", y.as_str()),
            )
        } else if *mode % 512 != 448 {
            let m = show_mode(*mode);
            Check::warn(
                cat3("socket directory permissions ", m.as_str(), " (expected 0700)"),
            )
        } else {
            Check::ok(copy("socket directory permissions ok"))
        },
    };
    let r = vec![a, b];
    assert(findings(r@) =~= seq![config_finding(*status), dir_finding(*dir, socket_dir@)]);
    r
}

/// What is made of an error that the server sent instead of its sessions.
pub fn probe_error(code: ErrorCode, message: &str) -> (r: String)
    ensures
        r@ == if code == ErrorCode::VersionMismatch {
            "version mismatch: "@ + message@
        } else {
            "server error: "@ + message@
        },
{
    if code == ErrorCode::VersionMismatch {
        cat2("version mismatch: ", message)
    } else {
        cat2("server error: ", message)
    }
}

/// From this size on a log is worth a word.
pub const LOG_SIZE_WARN: u64 = 52428800;

/// A size in the largest unit that fits. `gigabytes` is the number of
/// gigabytes as it is shown, for sizes that large.
pub open spec fn size_text(bytes: u64, gigabytes: Seq<char>) -> Seq<char> {
    if bytes < 1024 {
        text::decimal(bytes as nat) + " B"@
    } else if bytes < 1048576 {
        text::decimal((bytes / 1024) as nat) + " KB"@
    } else if bytes < 1073741824 {
        text::decimal((bytes / 1048576) as nat) + " MB"@
    } else {
        gigabytes + " GB"@
    }
}

/// A size in the largest unit that fits.
pub fn format_size(bytes: u64, gigabytes: &str) -> (r: String)
    ensures
        r@ == size_text(bytes, gigabytes@),
{
    if bytes < 1024 {
        cat2(decimal_text(bytes).as_str(), " B")
    } else if bytes < 1048576 {
        cat2(decimal_text(bytes / 1024).as_str(), " KB")
    } else if bytes < 1073741824 {
        cat2(decimal_text(bytes / 1048576).as_str(), " MB")
    } else {
        cat2(gigabytes, " GB")
    }
}

/// A log: its size if it is there, and the same in gigabytes as it is shown.
pub struct LogFacts {
    pub path: String,
    pub size: Option<u64>,
    pub gigabytes: String,
}

pub open spec fn log_finding(l: LogFacts) -> Seq<Finding> {
    match l.size {
        Some(n) => if n >= LOG_SIZE_WARN {
            seq![
                warning(
                    (match paths::file_name(l.path@) {
                        Some(f) => f,
                        None => "?"@,
                    }) + " is "@ + size_text(n, l.gigabytes@) + " (consider rotating)"@,
                ),
            ]
        } else {
            seq![]
        },
        None => seq![],
    }
}

/// Add a word about a log that has grown large.
pub fn check_log_file(checks: &mut Vec<Check>, l: &LogFacts)
    ensures
        findings(final(checks)@) == findings(old(checks)@) + log_finding(*l),
{
    let ghost before = findings(checks@);
    if let Some(n) = l.size {
        if n >= LOG_SIZE_WARN {
            let name = match paths::file_name_of(l.path.as_str()) {
                Some(f) => f,
                None => copy("?"),
            };
            let size = format_size(n, l.gigabytes.as_str());
            add_check(
                checks,
                Check::warn(cat4(name.as_str(), " is ", size.as_str(), " (consider rotating)")),
            );
        }
    }
    assert(findings(checks@) =~= before + log_finding(*l));
}

/// The local server as it was found. `files` are the names in its directory.
pub struct ServerFacts {
    pub pid: Option<u32>,
    pub pid_alive: bool,
    pub probe: Result<(u16, Vec<SessionEntry>), String>,
    pub stale: Option<Staleness>,
    pub files: Vec<String>,
    pub log: LogFacts,
    pub out: LogFacts,
}

pub open spec fn session_file(kind: Seq<char>, id: u32) -> Seq<char> {
    kind + "-"@ + text::decimal(id as nat) + ".sock"@
}

/// What there is to say of the sockets of a session.
pub open spec fn session_findings(
    s: SessionEntry,
    dir: Seq<char>,
    files: Seq<Seq<char>>,
) -> Seq<Finding> {
    let svc = session_file("svc"@, s.id);
    let agent = session_file("agent"@, s.id);
    (if files.contains(svc) {
        seq![]
    } else {
        seq![
            warning(
                "session "@ + sessions::wire_name(s) + ": service socket missing ("@
                    + paths::joined(dir, svc) + ")"@,
            ),
        ]
    }) + (if s.agent_forwarding_active && !files.contains(agent) {
        seq![
            failure(
                "session "@ + sessions::wire_name(s) + ": agent socket missing ("@ + paths::joined(
                    dir,
                    agent,
                ) + ")"@,
            ),
        ]
    } else {
        seq![]
    })
}

pub open spec fn sessions_findings(
    v: Seq<SessionEntry>,
    dir: Seq<char>,
    files: Seq<Seq<char>>,
) -> Seq<Finding>
    decreases v.len(),
{
    if v.len() == 0 {
        seq![]
    } else {
        sessions_findings(v.drop_last(), dir, files) + session_findings(v.last(), dir, files)
    }
}

pub open spec fn pid_words(pid: Option<u32>, before: Seq<char>, after: Seq<char>) -> Seq<char> {
    match pid {
        Some(p) => before + "pid "@ + text::decimal(p as nat) + after,
        None => ""@,
    }
}

fn show_pid(pid: Option<u32>, before: &str, after: &str) -> (r: String)
    ensures
        r@ == pid_words(pid, before@, after@),
{
    match pid {
        Some(p) => cat4(before, "pid ", decimal_text(p as u64).as_str(), after),
        None => copy(""),
    }
}

/// What there is to say of the local server.
/// Whether the server that is on record is gone.
pub open spec fn pid_stale(f: ServerFacts) -> bool {
    f.pid is Some && !f.pid_alive
}

/// The sessions that the server counts as having: none where it is gone.
pub fn live_ids(f: &ServerFacts) -> (r: Vec<u32>)
    ensures
        r@ == (match f.probe {
            Ok((_, v)) => if pid_stale(*f) {
                Seq::<u32>::empty()
            } else {
                v@.map_values(|s: SessionEntry| s.id)
            },
            Err(_) => Seq::<u32>::empty(),
        }),
{
    let mut r: Vec<u32> = Vec::new();
    if f.pid.is_some() && !f.pid_alive {
        return r;
    }
    match &f.probe {
        Ok((_, v)) => {
            let mut i: usize = 0;
            while i < v.len()
                invariant
                    i <= v@.len(),
                    r@ == v@.take(i as int).map_values(|s: SessionEntry| s.id),
                decreases v@.len() - i,
            {
                r.push(v[i].id);
                assert(r@ =~= v@.take(i + 1).map_values(|s: SessionEntry| s.id));
                i = i + 1;
            }
            assert(v@.take(i as int) =~= v@);
        },
        Err(_) => {},
    }
    r
}

pub open spec fn server_findings(f: ServerFacts, dir: Seq<char>) -> Seq<Finding> {
    if pid_stale(f) {
        seq![
            hinted(
                failure(
                    "stale daemon.pid (pid "@ + text::decimal(f.pid->0 as nat) + " not running)"@,
                ),
                "remove the PID file and stale socket, or run: gritty kill-server local"@,
            ),
        ]
    } else {
        let stale = stale_finding(
            runinfo::staleness_view(f.stale),
            "server"@,
            "gritty refresh local"@,
        );
        match f.probe {
            Ok((version, v)) => seq![
                good(
                    "server running ("@ + pid_words(f.pid, ""@, ", "@) + "protocol v"@
                        + text::decimal(version as nat) + ", "@ + text::counted(
                        v@.len(),
                        "session"@,
                    ) + ")"@,
                ),
            ] + (if version != PROTOCOL_VERSION {
                seq![
                    warning(
                        "server protocol v"@ + text::decimal(version as nat)
                            + " differs from local v"@ + text::decimal(PROTOCOL_VERSION as nat),
                    ),
                ]
            } else {
                seq![]
            }) + stale + sessions_findings(v@, dir, text::views(f.files@)) + log_finding(f.log)
                + log_finding(f.out),
            Err(m) => if text::has_text(m@, "version mismatch"@) {
                seq![
                    hinted(
                        warning("server"@ + pid_words(f.pid, " ("@, ")"@) + ": "@ + m@),
                        "gritty refresh local"@,
                    ),
                ] + stale
            } else if f.pid is Some {
                seq![warning("server process may be running but socket is unresponsive"@)]
            } else {
                seq![good("server not running"@)]
            },
        }
    }
}

/// Look at the local server.
pub fn check_local_server(f: &ServerFacts, socket_dir: &str) -> (r: Vec<Check>)
    ensures
        findings(r@) == server_findings(*f, socket_dir@),
{
    let mut r: Vec<Check> = Vec::new();
    assert(findings(r@) =~= Seq::<Finding>::empty());
    if let Some(p) = f.pid {
        if !f.pid_alive {
            let c = Check::fail(
                cat3("stale daemon.pid (pid ", decimal_text(p as u64).as_str(), " not running)"),
            );
            add_check(
                &mut r,
                c.with_hint(
                    copy(
                        "remove the PID file and stale socket, or run: gritty kill-server local",
                    ),
                ),
            );
            assert(findings(r@) =~= server_findings(*f, socket_dir@));
            return r;
        }
    }
    match &f.probe {
        Ok((version, v)) => {
            let pid = show_pid(f.pid, "", ", ");
            let number = decimal_text(*version as u64);
            let count = count_text(v.len(), "session");
            add_check(
                &mut r,
                Check::ok(
                    cat7(
                        "server running (",
                        pid.as_str(),
                        "protocol v",
                        number.as_str(),
                        ", ",
                        count.as_str(),
                        ")",
                    ),
                ),
            );
            if *version != PROTOCOL_VERSION {
                let mine = decimal_text(PROTOCOL_VERSION as u64);
                add_check(
                    &mut r,
                    Check::warn(
                        cat4(
                            "server protocol v",
                            number.as_str(),
                            " differs from local v",
                            mine.as_str(),
                        ),
                    ),
                );
            }
            check_staleness(&f.stale, "server", "gritty refresh local", &mut r);
            let ghost head = findings(r@);
            let ghost names = text::views(f.files@);
            let mut i: usize = 0;
            assert(v@.take(0) == Seq::<SessionEntry>::empty());
            assert(head + Seq::<Finding>::empty() =~= head);
            while i < v.len()
                invariant
                    i <= v@.len(),
                    names == text::views(f.files@),
                    findings(r@) == head + sessions_findings(
                        v@.take(i as int),
                        socket_dir@,
                        names,
                    ),
                decreases v@.len() - i,
            {
                assert(v@.take(i + 1).drop_last() == v@.take(i as int));
                assert(v@.take(i + 1).last() == v@[i as int]);
                let ghost before = findings(r@);
                check_session(&mut r, &v[i], socket_dir, &f.files);
                let ghost done = sessions_findings(v@.take(i as int), socket_dir@, names);
                let ghost more = session_findings(v@[i as int], socket_dir@, names);
                assert(head + done + more =~= head + (done + more));
                i = i + 1;
            }
            assert(v@.take(i as int) == v@);
            check_log_file(&mut r, &f.log);
            check_log_file(&mut r, &f.out);
            assert(findings(r@) =~= server_findings(*f, socket_dir@));
        },
        Err(m) => {
            if contains(m.as_str(), "version mismatch") {
                let pid = show_pid(f.pid, " (", ")");
                let c = Check::warn(cat4("server", pid.as_str(), ": ", m.as_str()));
                add_check(&mut r, c.with_hint(copy("gritty refresh local")));
                check_staleness(&f.stale, "server", "gritty refresh local", &mut r);
            } else if f.pid.is_some() {
                add_check(
                    &mut r,
                    Check::warn(
                        copy("server process may be running but socket is unresponsive"),
                    ),
                );
            } else {
                add_check(&mut r, Check::ok(copy("server not running")));
            }
            assert(findings(r@) =~= server_findings(*f, socket_dir@));
        },
    }
    r
}

fn check_session(r: &mut Vec<Check>, s: &SessionEntry, dir: &str, files: &Vec<String>)
    ensures
        findings(final(r)@) == findings(old(r)@) + session_findings(
            *s,
            dir@,
            text::views(files@),
        ),
{
    let ghost before = findings(r@);
    let label = session_wire_name(s);
    let id = decimal_text(s.id as u64);
    let svc = cat4("svc", "-", id.as_str(), ".sock");
    let agent = cat4("agent", "-", id.as_str(), ".sock");
    if !holds(files, svc.as_str()) {
        let path = join_path(dir, svc.as_str());
        add_check(
            r,
            Check::warn(
                cat5(
                    "session ",
                    label.as_str(),
                    ": service socket missing (",
                    path.as_str(),
                    ")",
                ),
            ),
        );
    }
    if s.agent_forwarding_active && !holds(files, agent.as_str()) {
        let path = join_path(dir, agent.as_str());
        add_check(
            r,
            Check::fail(
                cat5("session ", label.as_str(), ": agent socket missing (", path.as_str(), ")"),
            ),
        );
    }
    assert(findings(r@) =~= before + session_findings(*s, dir@, text::views(files@)));
}

/// A tunnel as it was found: the protocol version at its other end, or what
/// went wrong.
pub struct TunnelFacts {
    pub name: String,
    pub status: TunnelStatus,
    pub pid: Option<u32>,
    pub probe: Result<u16, String>,
    pub log: LogFacts,
    pub stale: Option<Staleness>,
}

/// What is added about the protocol at the other end.
pub open spec fn version_note(probe: Result<u16, String>) -> Seq<char> {
    match probe {
        Ok(v) => if v != PROTOCOL_VERSION {
            ", remote protocol v"@ + text::decimal(v as nat)
        } else {
            ", protocol v"@ + text::decimal(v as nat)
        },
        Err(m) => if text::has_text(m@, "version mismatch"@) {
            ", "@ + (if "version mismatch: "@.is_prefix_of(m@) {
                m@.skip("version mismatch: "@.len() as int)
            } else {
                m@
            })
        } else {
            ""@
        },
    }
}

/// What there is to say of a tunnel.
pub open spec fn tunnel_findings(f: TunnelFacts, dir: Seq<char>) -> Seq<Finding> {
    let pid = pid_words(f.pid, ", "@, ""@);
    (match f.status {
        TunnelStatus::Healthy => seq![
            good(f.name@ + ": healthy"@ + pid + version_note(f.probe)),
        ] + log_finding(f.log),
        TunnelStatus::Reconnecting => seq![
            hinted(
                warning(f.name@ + ": reconnecting"@ + pid),
                "tracing: "@ + connect::tunnel_file(dir, f.name@, ".log"@)
                    + "\n    \x1b[2m\u{2192} ssh output: "@ + connect::tunnel_file(
                    dir,
                    f.name@,
                    ".out"@,
                ),
            ),
        ],
        TunnelStatus::Stale => seq![
            hinted(
                failure(f.name@ + ": stale process"@ + pid),
                "gritty tunnel-destroy "@ + f.name@,
            ),
        ],
    }) + (if f.status == TunnelStatus::Stale {
        seq![]
    } else {
        stale_finding(
            runinfo::staleness_view(f.stale),
            f.name@ + " supervisor"@,
            "gritty refresh "@ + f.name@,
        )
    })
}

/// Look at a tunnel.
pub fn check_tunnel(f: &TunnelFacts, socket_dir: &str) -> (r: Vec<Check>)
    ensures
        findings(r@) == tunnel_findings(*f, socket_dir@),
{
    let mut r: Vec<Check> = Vec::new();
    assert(findings(r@) =~= Seq::<Finding>::empty());
    let pid = show_pid(f.pid, ", ", "");
    let name = f.name.as_str();
    match f.status {
        TunnelStatus::Healthy => {
            let note = match &f.probe {
                Ok(v) => {
                    let number = decimal_text(*v as u64);
                    if *v != PROTOCOL_VERSION {
                        cat2(", remote protocol v", number.as_str())
                    } else {
                        cat2(", protocol v", number.as_str())
                    }
                },
                Err(m) => if contains(m.as_str(), "version mismatch") {
                    let rest = match after_prefix(m.as_str(), "version mismatch: ") {
                        Some(t) => t,
                        None => copy(m.as_str()),
                    };
                    cat2(", ", rest.as_str())
                } else {
                    copy("")
                },
            };
            add_check(
                &mut r,
                Check::ok(cat4(name, ": healthy", pid.as_str(), note.as_str())),
            );
            check_log_file(&mut r, &f.log);
        },
        TunnelStatus::Reconnecting => {
            let log = connect_log_path(socket_dir, name);
            let out = connect_out_path(socket_dir, name);
            let hint = cat4(
                "tracing: ",
                log.as_str(),
                "\n    \x1b[2m\u{2192} ssh output: ",
                out.as_str(),
            );
            let c = Check::warn(cat3(name, ": reconnecting", pid.as_str()));
            add_check(&mut r, c.with_hint(hint));
        },
        TunnelStatus::Stale => {
            let c = Check::fail(cat3(name, ": stale process", pid.as_str()));
            add_check(&mut r, c.with_hint(cat2("gritty tunnel-destroy ", name)));
        },
    }
    if f.status != TunnelStatus::Stale {
        let label = cat2(name, " supervisor");
        let hint = cat2("gritty refresh ", name);
        check_staleness(&f.stale, label.as_str(), hint.as_str(), &mut r);
    }
    assert(findings(r@) =~= tunnel_findings(*f, socket_dir@));
    r
}

/// The parts of a tunnel's file name: the tunnel, and what follows the last
/// dot.
pub open spec fn tunnel_file_parts(file: Seq<char>) -> Option<(Seq<char>, Seq<char>)> {
    let rest = file.skip("connect-"@.len() as int);
    let k = text::last_index(rest, '.');
    if "connect-"@.is_prefix_of(file) && k >= 0 {
        Some((rest.take(k), rest.skip(k + 1)))
    } else {
        None
    }
}

fn split_tunnel_file(file: &str) -> (r: Option<(String, String)>)
    ensures
        match tunnel_file_parts(file@) {
            Some((name, ext)) => r is Some && (r->0).0@ == name && (r->0).1@ == ext,
            None => r is None,
        },
{
    match after_prefix(file, "connect-") {
        None => None,
        Some(rest) => {
            proof {
                text::lemma_last_index(rest@, '.');
            }
            cut_at_last(rest.as_str(), '.')
        },
    }
}

/// Whether a tunnel's file is left over when the tunnel is gone. Logs and the
/// remembered remote socket are kept on purpose.
pub open spec fn is_residue_ext(ext: Seq<char>) -> bool {
    ext == "sock"@ || ext == "pid"@ || ext == "dest"@ || ext == "info"@ || ext == "ssh-opts"@
}

/// The tunnel that a file is a leftover of, given all files of the directory.
pub open spec fn residue_of(file: Seq<char>, files: Seq<Seq<char>>) -> Option<Seq<char>> {
    match tunnel_file_parts(file) {
        Some((name, ext)) => if is_residue_ext(ext) && !files.contains(
            "connect-"@ + name + ".lock"@,
        ) {
            Some(name)
        } else {
            None
        },
        None => None,
    }
}

fn find_residue(file: &str, files: &Vec<String>) -> (r: Option<String>)
    ensures
        text::owned_view(r) == residue_of(file@, text::views(files@)),
{
    match split_tunnel_file(file) {
        None => None,
        Some((name, ext)) => {
            let e = ext.as_str();
            if !(same(e, "sock") || same(e, "pid") || same(e, "dest") || same(e, "info") || same(
                e,
                "ssh-opts",
            )) {
                return None;
            }
            let lock = cat3("connect-", name.as_str(), ".lock");
            if holds(files, lock.as_str()) {
                None
            } else {
                Some(name)
            }
        },
    }
}

/// The leftovers of one tunnel among the first `n` files.
pub open spec fn leftovers(files: Seq<Seq<char>>, name: Seq<char>, n: int) -> Seq<Seq<char>>
    decreases n,
{
    if n <= 0 {
        seq![]
    } else if residue_of(files[n - 1], files) == Some(name) {
        leftovers(files, name, n - 1).push(files[n - 1])
    } else {
        leftovers(files, name, n - 1)
    }
}

/// The dead tunnels that left files behind: each name once, in alphabetical
/// order.
pub open spec fn are_dead_tunnels(names: Seq<Seq<char>>, files: Seq<Seq<char>>) -> bool {
    &&& order::ascending(names)
    &&& forall|t: Seq<char>|
        #[trigger] names.contains(t) <==> exists|i: int|
            0 <= i < files.len() && #[trigger] residue_of(files[i], files) == Some(t)
}

pub open spec fn residue_finding(files: Seq<Seq<char>>, name: Seq<char>) -> Finding {
    hinted(
        warning(
            "dead tunnel "@ + name + ": leftover "@ + text::join(
                order::sorted(leftovers(files, name, files.len() as int)),
                ", "@,
            ),
        ),
        "gritty tunnel-destroy "@ + name,
    )
}

/// Look for files of tunnels that have no lock file: nothing else would notice
/// them.
pub fn check_tunnel_residue(files: &Vec<String>) -> (r: Vec<Check>)
    ensures
        exists|names: Seq<Seq<char>>|
            #[trigger] are_dead_tunnels(names, text::views(files@)) && findings(r@)
                == names.map_values(|n: Seq<char>| residue_finding(text::views(files@), n)),
{
    let ghost all = text::views(files@);
    let mut found: Vec<String> = Vec::new();
    let mut i: usize = 0;
    assert(text::views(found@) =~= Seq::<Seq<char>>::empty());
    while i < files.len()
        invariant
            i <= files@.len(),
            all == text::views(files@),
            forall|t: Seq<char>|
                #[trigger] text::views(found@).contains(t) <==> exists|k: int|
                    0 <= k < i && #[trigger] residue_of(all[k], all) == Some(t),
        decreases files@.len() - i,
    {
        let ghost before = text::views(found@);
        assert(all[i as int] == files@[i as int]@);
        match find_residue(files[i].as_str(), files) {
            Some(name) => {
                let ghost nv = name@;
                proof {
                    text::lemma_views_push(found@, name);
                    assert(residue_of(all[i as int], all) == Some(nv));
                    assert forall|t: Seq<char>| #[trigger]
                        before.push(nv).contains(t) <==> exists|k: int|
                        0 <= k < i + 1 && #[trigger] residue_of(all[k], all) == Some(t) by {
                        order::lemma_push_contains(before, nv, t);
                        if before.contains(t) {
                            let k = choose|k: int|
                                0 <= k < i && #[trigger] residue_of(all[k], all) == Some(t);
                            assert(residue_of(all[k], all) == Some(t));
                        }
                    }
                }
                found.push(name);
            },
            None => {
                assert forall|t: Seq<char>| #[trigger] before.contains(t) <==> exists|k: int|
                    0 <= k < i + 1 && #[trigger] residue_of(all[k], all) == Some(t) by {
                    if before.contains(t) {
                        let k = choose|k: int|
                            0 <= k < i && #[trigger] residue_of(all[k], all) == Some(t);
                        assert(residue_of(all[k], all) == Some(t));
                    }
                }
            },
        }
        i = i + 1;
    }
    let names = sorted_set(&found);
    let ghost ns = text::views(names@);
    assert(are_dead_tunnels(ns, all)) by {
        assert forall|t: Seq<char>| #[trigger] ns.contains(t) <==> exists|i: int|
            0 <= i < all.len() && #[trigger] residue_of(all[i], all) == Some(t) by {
            assert(ns.contains(t) <==> text::views(found@).contains(t));
        }
    }
    let mut r: Vec<Check> = Vec::new();
    let mut k: usize = 0;
    let ghost want = ns.map_values(|n: Seq<char>| residue_finding(all, n));
    assert(findings(r@) =~= want.take(0));
    while k < names.len()
        invariant
            k <= names@.len(),
            all == text::views(files@),
            ns == text::views(names@),
            want == ns.map_values(|n: Seq<char>| residue_finding(all, n)),
            findings(r@) == want.take(k as int),
        decreases names@.len() - k,
    {
        let name = names[k].as_str();
        let mut mine: Vec<String> = Vec::new();
        let mut j: usize = 0;
        assert(text::views(mine@) =~= Seq::<Seq<char>>::empty());
        while j < files.len()
            invariant
                j <= files@.len(),
                all == text::views(files@),
                text::views(mine@) == leftovers(all, name@, j as int),
            decreases files@.len() - j,
        {
            assert(all[j as int] == files@[j as int]@);
            if let Some(n) = find_residue(files[j].as_str(), files) {
                if same(n.as_str(), name) {
                    let f = copy(files[j].as_str());
                    proof {
                        text::lemma_views_push(mine@, f);
                    }
                    mine.push(f);
                }
            }
            j = j + 1;
        }
        let list = join_texts(&sort_texts(mine), ", ");
        let c = Check::warn(cat4("dead tunnel ", name, ": leftover ", list.as_str()));
        add_check(&mut r, c.with_hint(cat2("gritty tunnel-destroy ", name)));
        assert(want[k as int] == residue_finding(all, name@));
        assert(findings(r@) =~= want.take(k + 1));
        k = k + 1;
    }
    assert(want.take(k as int) =~= want);
    r
}

/// The sessions that clients on this machine hold, by the sockets that answer.
pub open spec fn held(files: Seq<FoundFile>) -> Seq<(Seq<char>, u32)>
    decreases files.len(),
{
    if files.len() == 0 {
        seq![]
    } else {
        let rest = held(files.drop_last());
        match client::forward_socket_parts(files.last().name@) {
            Some(p) => if files.last().alive {
                rest.push(p)
            } else {
                rest
            },
            None => rest,
        }
    }
}

/// Those sessions by host and number.
pub open spec fn held_in_order(files: Seq<FoundFile>) -> Seq<(Seq<char>, u32)> {
    order::in_order(
        held(files),
        order::sort_order(
            held(files).map_values(
                |p: (Seq<char>, u32)| order::Rank { rank: 0, text: p.0, number: p.1 as u64 },
            ),
        ),
    )
}

pub open spec fn client_finding(p: (Seq<char>, u32)) -> Finding {
    good("client on this machine holds "@ + p.0 + ":"@ + text::decimal(p.1 as nat))
}

/// Look for clients on this machine.
pub fn check_clients(files: &Vec<FoundFile>) -> (r: Vec<Check>)
    ensures
        findings(r@) == held_in_order(files@).map_values(
            |p: (Seq<char>, u32)| client_finding(p),
        ),
{
    let mut items: Vec<(String, u32)> = Vec::new();
    let mut keys: Vec<SortKey> = Vec::new();
    let ghost mut got = Seq::<(Seq<char>, u32)>::empty();
    let mut i: usize = 0;
    assert(files@.take(0) == Seq::<FoundFile>::empty());
    while i < files.len()
        invariant
            i <= files@.len(),
            got == held(files@.take(i as int)),
            items@.len() == got.len(),
            keys@.len() == got.len(),
            forall|k: int|
                0 <= k < got.len() ==> (#[trigger] items@[k]).0@ == got[k].0 && items@[k].1
                    == got[k].1,
            forall|k: int|
                0 <= k < got.len() ==> (#[trigger] keys@[k])@ == (order::Rank {
                    rank: 0,
                    text: got[k].0,
                    number: got[k].1 as u64,
                }),
        decreases files@.len() - i,
    {
        assert(files@.take(i + 1).drop_last() == files@.take(i as int));
        assert(files@.take(i + 1).last() == files@[i as int]);
        if let Some((host, id)) = parse_forward_socket_name(files[i].name.as_str()) {
            if files[i].alive {
                proof {
                    got = got.push((host@, id));
                }
                keys.push(SortKey { rank: 0, text: copy(host.as_str()), number: id as u64 });
                items.push((host, id));
            }
        }
        i = i + 1;
    }
    assert(files@.take(i as int) == files@);
    assert(order::ranks(keys@) =~= got.map_values(
        |p: (Seq<char>, u32)| order::Rank { rank: 0, text: p.0, number: p.1 as u64 },
    ));
    let ghost all = items@;
    let (sorted, places) = sort_by_keys(items, &keys);
    let ghost want = held_in_order(files@).map_values(|p: (Seq<char>, u32)| client_finding(p));
    let mut r: Vec<Check> = Vec::new();
    let mut k: usize = 0;
    assert(findings(r@) =~= want.take(0));
    while k < sorted.len()
        invariant
            k <= sorted@.len(),
            order::is_sort(order::ranks(keys@), places@),
            sorted@ == order::in_order(all, places@),
            all.len() == got.len(),
            keys@.len() == got.len(),
            got == held(files@),
            held_in_order(files@) == order::in_order(got, places@),
            forall|k: int|
                0 <= k < got.len() ==> (#[trigger] all[k]).0@ == got[k].0 && all[k].1 == got[k].1,
            want == held_in_order(files@).map_values(|p: (Seq<char>, u32)| client_finding(p)),
            findings(r@) == want.take(k as int),
        decreases sorted@.len() - k,
    {
        proof {
            let at = places@[k as int] as int;
            assert(0 <= at < got.len());
            assert(sorted@[k as int] == all[at]);
            assert(held_in_order(files@)[k as int] == got[at]);
        }
        let id = decimal_text(sorted[k].1 as u64);
        add_check(
            &mut r,
            Check::ok(
                cat4("client on this machine holds ", sorted[k].0.as_str(), ":", id.as_str()),
            ),
        );
        assert(findings(r@) =~= want.take(k + 1));
        k = k + 1;
    }
    assert(want.take(k as int) =~= want);
    r
}

/// Whether something of this name is in the directory: besides its files, the
/// directory itself and the one above it.
pub open spec fn is_there(files: Seq<Seq<char>>, name: Seq<char>) -> bool {
    name == ""@ || name == "."@ || name == ".."@ || files.contains(name)
}

/// How many lock companions have lost their socket, among the first `n` files.
pub open spec fn stale_locks(files: Seq<Seq<char>>, n: int) -> nat
    decreases n,
{
    if n <= 0 {
        0
    } else {
        let f = files[n - 1];
        stale_locks(files, n - 1) + (if ".bindlock"@.is_suffix_of(f) && !is_there(
            files,
            f.take(f.len() - ".bindlock"@.len()),
        ) {
            1nat
        } else {
            0nat
        })
    }
}

/// Look for lock companions whose socket is gone.
pub fn check_stale_bindlocks(files: &Vec<String>, socket_dir: &str) -> (r: Vec<Check>)
    ensures
        ({
            let n = stale_locks(text::views(files@), files@.len() as int);
            findings(r@) == if n == 0 {
                seq![]
            } else {
                seq![
                    hinted(
                        warning(
                            text::counted(n, "stale bind-lock file"@)
                                + " (socket already gone)"@,
                        ),
                        "safe to remove: rm '"@ + socket_dir@ + "'/*.bindlock"@,
                    ),
                ]
            }
        }),
{
    let ghost all = text::views(files@);
    let mut n: usize = 0;
    let mut i: usize = 0;
    while i < files.len()
        invariant
            i <= files@.len(),
            all == text::views(files@),
            n <= i,
            n == stale_locks(all, i as int),
        decreases files@.len() - i,
    {
        assert(all[i as int] == files@[i as int]@);
        if let Some(base) = before_suffix(files[i].as_str(), ".bindlock") {
            let b = base.as_str();
            if !same(b, "") && !same(b, ".") && !same(b, "..") && !holds(files, b) {
                n = n + 1;
            }
        }
        i = i + 1;
    }
    let mut r: Vec<Check> = Vec::new();
    assert(findings(r@) =~= Seq::<Finding>::empty());
    if n > 0 {
        let count = count_text(n, "stale bind-lock file");
        let c = Check::warn(cat2(count.as_str(), " (socket already gone)"));
        add_check(
            &mut r,
            c.with_hint(cat3("safe to remove: rm '", socket_dir, "'/*.bindlock")),
        );
        assert(findings(r@) =~= seq![
            hinted(
                warning(text::counted(n as nat, "stale bind-lock file"@) + " (socket already gone)"@),
                "safe to remove: rm '"@ + socket_dir@ + "'/*.bindlock"@,
            ),
        ]);
    }
    r
}

/// A name without the ending of a lock companion.
pub open spec fn lock_base(name: Seq<char>) -> Seq<char> {
    if ".bindlock"@.is_suffix_of(name) {
        name.take(name.len() - ".bindlock"@.len())
    } else {
        name
    }
}

fn base_of(name: &str) -> (r: String)
    ensures
        r@ == lock_base(name@),
{
    match before_suffix(name, ".bindlock") {
        Some(b) => b,
        None => copy(name),
    }
}

/// What stands between the kind and the ending in the name of a session's
/// socket.
pub open spec fn session_socket_id(name: Seq<char>) -> Option<Seq<char>> {
    let rest = if "agent-"@.is_prefix_of(name) {
        Some(name.skip("agent-"@.len() as int))
    } else if "svc-"@.is_prefix_of(name) {
        Some(name.skip("svc-"@.len() as int))
    } else {
        None
    };
    match rest {
        Some(t) => if ".sock"@.is_suffix_of(t) {
            Some(t.take(t.len() - ".sock"@.len()))
        } else {
            None
        },
        None => None,
    }
}

fn find_session_id(name: &str) -> (r: Option<String>)
    ensures
        text::owned_view(r) == session_socket_id(name@),
{
    let rest = match after_prefix(name, "agent-") {
        Some(t) => t,
        None => match after_prefix(name, "svc-") {
            Some(t) => t,
            None => {
                return None;
            },
        },
    };
    before_suffix(rest.as_str(), ".sock")
}

/// The endings of the files that a tunnel writes.
pub open spec fn is_tunnel_ext(ext: Seq<char>) -> bool {
    is_residue_ext(ext) || ext == "lock"@ || ext == "remote-sock"@ || ext == "log"@ || ext == "out"@
}

/// Whether a name is one that this program gives to files in the socket
/// directory. In doubt it is: a file that is wrongly kept does little harm.
pub open spec fn known_artifact(file: Seq<char>) -> bool {
    let name = lock_base(file);
    if name == "ctl.sock"@ || name == "daemon.pid"@ || name == "daemon.info"@ || name
        == "gritty-open"@ {
        true
    } else if "daemon.log"@.is_prefix_of(name) || "daemon.out"@.is_prefix_of(name) {
        true
    } else if session_socket_id(name) is Some {
        let id = session_socket_id(name)->0;
        id.len() > 0 && text::all_digits(id)
    } else if "fwd-"@.is_prefix_of(name) && ".sock"@.is_suffix_of(name) {
        true
    } else if "connect-"@.is_prefix_of(name) {
        let rest = name.skip("connect-"@.len() as int);
        ||| tunnel_file_parts(name) is Some && is_tunnel_ext((tunnel_file_parts(name)->0).1)
        ||| text::has_text(rest, ".log"@)
        ||| text::has_text(rest, ".out"@)
    } else {
        false
    }
}

fn digits_only(s: &str) -> (r: bool)
    ensures
        r == text::all_digits(s@),
{
    let v = text::chars_of(s);
    let mut i: usize = 0;
    while i < v.len()
        invariant
            i <= v@.len(),
            v@ == s@,
            forall|k: int| 0 <= k < i ==> text::is_digit_char(#[trigger] s@[k]),
        decreases v@.len() - i,
    {
        let c: char = v[i];
        if !('0' <= c && c <= '9') {
            assert(!text::is_digit_char(s@[i as int]));
            return false;
        }
        i = i + 1;
    }
    true
}

/// Whether a name is one that this program gives to files in the socket
/// directory.
pub fn is_known_artifact(file: &str) -> (r: bool)
    ensures
        r == known_artifact(file@),
{
    let name = base_of(file);
    let n = name.as_str();
    if same(n, "ctl.sock") || same(n, "daemon.pid") || same(n, "daemon.info") || same(
        n,
        "gritty-open",
    ) {
        return true;
    }
    if starts_with(n, "daemon.log") || starts_with(n, "daemon.out") {
        return true;
    }
    if let Some(id) = find_session_id(n) {
        return id.as_str().unicode_len() > 0 && digits_only(id.as_str());
    }
    if starts_with(n, "fwd-") && ends_with(n, ".sock") {
        return true;
    }
    if let Some(rest) = after_prefix(n, "connect-") {
        if let Some((_, ext)) = split_tunnel_file(n) {
            let e = ext.as_str();
            if same(e, "sock") || same(e, "pid") || same(e, "info") || same(e, "lock") || same(
                e,
                "dest",
            ) || same(e, "ssh-opts") || same(e, "remote-sock") || same(e, "log") || same(e, "out") {
                return true;
            }
        }
        return contains(rest.as_str(), ".log") || contains(rest.as_str(), ".out");
    }
    false
}

/// A file and its lock companion are known alike.
pub proof fn law_lock_companions_go_along(name: Seq<char>)
    requires
        !".bindlock"@.is_suffix_of(name),
    ensures
        known_artifact(name + ".bindlock"@) == known_artifact(name),
{
    let file = name + ".bindlock"@;
    assert(file.subrange(name.len() as int, file.len() as int) =~= ".bindlock"@);
    assert(file.take(name.len() as int) =~= name);
}

/// The sockets of a session are known by their number, and none without one.
pub proof fn law_session_sockets_have_numbers(t: Seq<char>)
    ensures
        known_artifact("agent-"@ + t + ".sock"@) <==> t.len() > 0 && text::all_digits(t),
        known_artifact("svc-"@ + t + ".sock"@) <==> t.len() > 0 && text::all_digits(t),
{
    lemma_session_socket("agent-"@, t);
    lemma_session_socket("svc-"@, t);
}

proof fn lemma_session_socket(kind: Seq<char>, t: Seq<char>)
    requires
        kind == "agent-"@ || kind == "svc-"@,
    ensures
        known_artifact(kind + t + ".sock"@) <==> t.len() > 0 && text::all_digits(t),
{
    let name = kind + t + ".sock"@;
    let n = name.len() as int;
    reveal_strlit("agent-");
    reveal_strlit("svc-");
    reveal_strlit(".sock");
    reveal_strlit(".bindlock");
    reveal_strlit("ctl.sock");
    reveal_strlit("daemon.pid");
    reveal_strlit("daemon.info");
    reveal_strlit("gritty-open");
    reveal_strlit("daemon.log");
    reveal_strlit("daemon.out");
    assert(name[0] == kind[0]);
    if ".bindlock"@.is_suffix_of(name) {
        assert(name.subrange(n - 9, n)[5] == 'l');
        assert(name[n - 4] == 's');
        assert(false);
    }
    if "daemon.log"@.is_prefix_of(name) {
        assert(name.subrange(0, 10)[0] == name[0]);
    }
    if "daemon.out"@.is_prefix_of(name) {
        assert(name.subrange(0, 10)[0] == name[0]);
    }
    if "agent-"@.is_prefix_of(name) {
        assert(name.subrange(0, 6)[0] == name[0]);
    }
    assert(name.subrange(0, kind.len() as int) =~= kind);
    let rest = name.skip(kind.len() as int);
    assert(rest =~= t + ".sock"@);
    assert(rest.subrange(t.len() as int, rest.len() as int) =~= ".sock"@);
    assert(rest.take(t.len() as int) =~= t);
    assert(session_socket_id(name) == Some(t));
}

proof fn lemma_last_dot(t: Seq<char>, ext: Seq<char>)
    requires
        !ext.contains('.'),
    ensures
        text::last_index(t + "."@ + ext, '.') == t.len(),
{
    let s = t + "."@ + ext;
    let k = text::last_index(s, '.');
    reveal_strlit(".");
    text::lemma_last_index(s, '.');
    assert(s[t.len() as int] == '.');
    if k > t.len() {
        assert(s[k] == ext[k - t.len() - 1]);
        assert(ext.contains('.'));
    }
}

proof fn lemma_tunnel_ext(ext: Seq<char>)
    requires
        is_tunnel_ext(ext),
    ensures
        !ext.contains('.'),
        ext != "bindlock"@,
{
    reveal_strlit("sock");
    reveal_strlit("pid");
    reveal_strlit("dest");
    reveal_strlit("info");
    reveal_strlit("ssh-opts");
    reveal_strlit("lock");
    reveal_strlit("remote-sock");
    reveal_strlit("log");
    reveal_strlit("out");
    reveal_strlit("bindlock");
    if ext == "bindlock"@ {
        assert(ext[0] == 'b');
    }
}

/// Every file that a tunnel writes is known, whatever the tunnel's name: there
/// may be dots in it.
pub proof fn law_tunnel_files_are_known(t: Seq<char>, ext: Seq<char>)
    requires
        is_tunnel_ext(ext),
    ensures
        known_artifact("connect-"@ + t + "."@ + ext),
{
    let name = "connect-"@ + t + "."@ + ext;
    let n = name.len() as int;
    let m = ext.len() as int;
    lemma_tunnel_ext(ext);
    lemma_last_dot(t, ext);
    lemma_last_dot("connect-"@ + t, ext);
    reveal_strlit("connect-");
    reveal_strlit(".");
    reveal_strlit(".bindlock");
    reveal_strlit("bindlock");
    reveal_strlit("daemon.log");
    reveal_strlit("daemon.out");
    reveal_strlit("agent-");
    reveal_strlit("svc-");
    if ".bindlock"@.is_suffix_of(name) {
        let tail = name.subrange(n - 9, n);
        let head = name.take(n - 9);
        assert(tail =~= "."@ + "bindlock"@);
        assert(name =~= head + tail);
        assert(head + ("."@ + "bindlock"@) =~= head + "."@ + "bindlock"@);
        assert(!"bindlock"@.contains('.'));
        lemma_last_dot(head, "bindlock"@);
        assert(name.skip(n - 8) =~= "bindlock"@);
        assert(name.skip(n - m) =~= ext);
        assert(false);
    }
    assert(name[0] == 'c');
    if "daemon.log"@.is_prefix_of(name) {
        assert(name.subrange(0, 10)[0] == name[0]);
    }
    if "daemon.out"@.is_prefix_of(name) {
        assert(name.subrange(0, 10)[0] == name[0]);
    }
    if "agent-"@.is_prefix_of(name) {
        assert(name.subrange(0, 6)[0] == name[0]);
    }
    if "svc-"@.is_prefix_of(name) {
        assert(name.subrange(0, 4)[0] == name[0]);
    }
    assert(name.subrange(0, 8) =~= "connect-"@);
    let rest = name.skip(8);
    assert(rest =~= t + "."@ + ext);
    assert(rest.skip(t.len() as int + 1) =~= ext);
}

/// The socket of every tunnel is known, whatever the tunnel's name.
pub proof fn law_tunnel_sockets_are_known(t: Seq<char>)
    ensures
        known_artifact("connect-"@ + t + ".sock"@),
{
    reveal_strlit(".");
    reveal_strlit("sock");
    reveal_strlit(".sock");
    assert(".sock"@ =~= "."@ + "sock"@);
    assert("connect-"@ + t + ".sock"@ =~= "connect-"@ + t + "."@ + "sock"@);
    law_tunnel_files_are_known(t, "sock"@);
}

/// Whether a file belongs to nobody that is known. The socket that the server
/// was told to use is known, with its lock companion, whatever its name.
pub open spec fn is_stray(file: Seq<char>, ctl_name: Option<Seq<char>>) -> bool {
    Some(lock_base(file)) != ctl_name && !known_artifact(file)
}

/// The files that belong to nobody, in the order of the listing.
pub open spec fn strays(files: Seq<Seq<char>>, ctl_name: Option<Seq<char>>) -> Seq<Seq<char>>
    decreases files.len(),
{
    if files.len() == 0 {
        seq![]
    } else {
        let rest = strays(files.drop_last(), ctl_name);
        if is_stray(files.last(), ctl_name) {
            rest.push(files.last())
        } else {
            rest
        }
    }
}

/// The files of the socket directory that belong to nobody, in alphabetical
/// order.
pub fn unknown_files(files: &Vec<String>, ctl_name: Option<&str>) -> (r: Vec<String>)
    ensures
        text::views(r@) == order::sorted(
            strays(text::views(files@), text::str_view(ctl_name)),
        ),
{
    let ghost all = text::views(files@);
    let mut r: Vec<String> = Vec::new();
    let mut i: usize = 0;
    assert(all.take(0) == Seq::<Seq<char>>::empty());
    assert(text::views(r@) =~= Seq::<Seq<char>>::empty());
    while i < files.len()
        invariant
            i <= files@.len(),
            all == text::views(files@),
            text::views(r@) == strays(all.take(i as int), text::str_view(ctl_name)),
        decreases files@.len() - i,
    {
        assert(all.take(i + 1).drop_last() == all.take(i as int));
        assert(all.take(i + 1).last() == files@[i as int]@);
        let base = base_of(files[i].as_str());
        let is_ctl = match ctl_name {
            Some(c) => same(base.as_str(), c),
            None => false,
        };
        if !is_ctl && !is_known_artifact(files[i].as_str()) {
            let f = copy(files[i].as_str());
            proof {
                text::lemma_views_push(r@, f);
            }
            r.push(f);
        }
        i = i + 1;
    }
    assert(all.take(i as int) == all);
    sort_texts(r)
}

/// What a file that belongs to nobody is.
#[derive(Clone, Copy, PartialEq, Eq, Structural)]
pub enum StrayKind {
    /// It is gone by now.
    Gone,
    Directory,
    /// A socket that somebody answers on.
    SocketInUse,
    File,
}

/// Whether a file that belongs to nobody is removed: only on request, and
/// never a directory or a socket in use.
pub open spec fn removes(kind: StrayKind, clean: bool) -> bool {
    clean && kind == StrayKind::File
}

/// Whether a file that belongs to nobody is removed.
pub fn may_remove(kind: StrayKind, clean: bool) -> (r: bool)
    ensures
        r == removes(kind, clean),
{
    clean && kind == StrayKind::File
}

/// What there is to say of a file that belongs to nobody, given how removing
/// it went where it was removed.
pub open spec fn stray_finding(
    name: Seq<char>,
    kind: StrayKind,
    clean: bool,
    removed: Result<(), Seq<char>>,
) -> Option<Finding> {
    match kind {
        StrayKind::Gone => None,
        StrayKind::Directory => Some(
            warning("unknown directory: "@ + name + " (not removing)"@),
        ),
        StrayKind::SocketInUse => Some(
            warning("unknown socket in use: "@ + name + " (not removing)"@),
        ),
        StrayKind::File => Some(
            if !clean {
                hinted(warning("unknown file: "@ + name), "gritty doctor --clean removes it"@)
            } else {
                match removed {
                    Ok(_) => good("removed unknown file: "@ + name),
                    Err(e) => warning("could not remove "@ + name + ": "@ + e),
                }
            },
        ),
    }
}

pub open spec fn finding_view(c: Option<Check>) -> Option<Finding> {
    match c {
        Some(c) => Some(c@),
        None => None,
    }
}

/// What there is to say of a file that belongs to nobody.
pub fn check_unknown_file(
    name: &str,
    kind: StrayKind,
    clean: bool,
    removed: Result<(), String>,
) -> (r: Option<Check>)
    ensures
        finding_view(r) == stray_finding(
            name@,
            kind,
            clean,
            match removed {
                Ok(_) => Ok(()),
                Err(e) => Err(e@),
            },
        ),
{
    match kind {
        StrayKind::Gone => None,
        StrayKind::Directory => Some(
            Check::warn(cat3("unknown directory: ", name, " (not removing)")),
        ),
        StrayKind::SocketInUse => Some(
            Check::warn(cat3("unknown socket in use: ", name, " (not removing)")),
        ),
        StrayKind::File => if !clean {
            let c = Check::warn(cat2("unknown file: ", name));
            Some(c.with_hint(copy("gritty doctor --clean removes it")))
        } else {
            match removed {
                Ok(_) => Some(Check::ok(cat2("removed unknown file: ", name))),
                Err(e) => Some(Check::warn(cat4("could not remove ", name, ": ", e.as_str()))),
            }
        },
    }
}

/// Nothing that this program writes, no directory and no socket in use is ever
/// removed, and nothing at all unless it was asked for.
pub proof fn law_cleaning_spares(
    files: Seq<Seq<char>>,
    ctl_name: Option<Seq<char>>,
    kind: StrayKind,
    clean: bool,
    i: int,
)
    requires
        0 <= i < strays(files, ctl_name).len(),
    ensures
        !known_artifact(strays(files, ctl_name)[i]),
        files.contains(strays(files, ctl_name)[i]),
        !clean ==> !removes(kind, clean),
        kind == StrayKind::Directory || kind == StrayKind::SocketInUse ==> !removes(kind, clean),
    decreases files.len(),
{
    let init = files.drop_last();
    let rest = strays(init, ctl_name);
    if i < rest.len() {
        law_cleaning_spares(init, ctl_name, kind, clean, i);
        let k = choose|k: int| 0 <= k < init.len() && init[k] == rest[i];
        assert(files[k] == rest[i]);
    } else {
        assert(files[files.len() - 1] == files.last());
    }
}

/// Whether a socket file has lost its owner: its session is gone, or nobody
/// answers on it.
pub open spec fn is_orphan(f: FoundFile, live_ids: Seq<u32>) -> bool {
    let name = f.name@;
    if !".sock"@.is_suffix_of(name) || name == "ctl.sock"@ || "connect-"@.is_prefix_of(name) {
        false
    } else if session_socket_id(name) is Some {
        match text::unsigned(session_socket_id(name)->0) {
            Some(n) => n <= u32::MAX && !live_ids.contains(n as u32),
            None => false,
        }
    } else {
        "fwd-"@.is_prefix_of(name) && !f.alive
    }
}

/// The socket files without an owner, in the order of the listing.
pub open spec fn orphans(files: Seq<FoundFile>, live_ids: Seq<u32>) -> Seq<Seq<char>>
    decreases files.len(),
{
    if files.len() == 0 {
        seq![]
    } else {
        let rest = orphans(files.drop_last(), live_ids);
        if is_orphan(files.last(), live_ids) {
            rest.push(files.last().name@)
        } else {
            rest
        }
    }
}

fn has_id(ids: &Vec<u32>, id: u32) -> (r: bool)
    ensures
        r == ids@.contains(id),
{
    let mut i: usize = 0;
    while i < ids.len()
        invariant
            i <= ids@.len(),
            forall|k: int| 0 <= k < i ==> ids@[k] != id,
        decreases ids@.len() - i,
    {
        if ids[i] == id {
            return true;
        }
        i = i + 1;
    }
    false
}

fn orphan(f: &FoundFile, live_ids: &Vec<u32>) -> (r: bool)
    ensures
        r == is_orphan(*f, live_ids@),
{
    let name = f.name.as_str();
    if !ends_with(name, ".sock") || same(name, "ctl.sock") || starts_with(name, "connect-") {
        return false;
    }
    match find_session_id(name) {
        Some(id) => match parse_unsigned(id.as_str(), 0xffff_ffff) {
            Some(n) => !has_id(live_ids, n as u32),
            None => false,
        },
        None => starts_with(name, "fwd-") && !f.alive,
    }
}

/// Look for socket files without an owner.
pub fn check_sockets(files: &Vec<FoundFile>, live_session_ids: &Vec<u32>) -> (r: Vec<Check>)
    ensures
        ({
            let found = orphans(files@, live_session_ids@);
            findings(r@) == if found.len() == 0 {
                seq![]
            } else {
                seq![
                    warning(
                        text::counted(found.len(), "orphaned socket file"@) + ": "@ + text::join(
                            order::sorted(found),
                            ", "@,
                        ),
                    ),
                ]
            }
        }),
{
    let mut found: Vec<String> = Vec::new();
    let mut i: usize = 0;
    assert(files@.take(0) == Seq::<FoundFile>::empty());
    assert(text::views(found@) =~= Seq::<Seq<char>>::empty());
    while i < files.len()
        invariant
            i <= files@.len(),
            text::views(found@) == orphans(files@.take(i as int), live_session_ids@),
        decreases files@.len() - i,
    {
        assert(files@.take(i + 1).drop_last() == files@.take(i as int));
        assert(files@.take(i + 1).last() == files@[i as int]);
        if orphan(&files[i], live_session_ids) {
            let f = copy(files[i].name.as_str());
            proof {
                text::lemma_views_push(found@, f);
            }
            found.push(f);
        }
        i = i + 1;
    }
    assert(files@.take(i as int) == files@);
    let mut r: Vec<Check> = Vec::new();
    assert(findings(r@) =~= Seq::<Finding>::empty());
    let ghost names = text::views(found@);
    assert(names.len() == found@.len());
    if found.len() > 0 {
        let count = count_text(found.len(), "orphaned socket file");
        let list = join_texts(&sort_texts(found), ", ");
        add_check(&mut r, Check::warn(cat3(count.as_str(), ": ", list.as_str())));
        assert(findings(r@) =~= seq![
            warning(
                text::counted(names.len(), "orphaned socket file"@) + ": "@ + text::join(
                    order::sorted(names),
                    ", "@,
                ),
            ),
        ]);
    }
    r
}

/// What is said of a server that runs but cannot be reached any more.
pub fn orphan_daemon_check(shown: &str) -> (r: Check)
    ensures
        r@ == hinted(
            failure("orphaned daemon: "@ + shown@),
            "run `gritty refresh` to reap it; if this host wipes $XDG_RUNTIME_DIR on logout, `loginctl enable-linger` prevents new orphans"@,
        ),
{
    Check::fail(cat2("orphaned daemon: ", shown)).with_hint(
        copy(
            "run `gritty refresh` to reap it; if this host wipes $XDG_RUNTIME_DIR on logout, `loginctl enable-linger` prevents new orphans",
        ),
    )
}

/// Where the server's files are: beside its socket.
pub open spec fn server_dir_of(ctl_path: Seq<char>, default_dir: Seq<char>) -> Seq<char> {
    match paths::parent(ctl_path) {
        Some(d) => d,
        None => default_dir,
    }
}

/// The socket that is looked at, where its files are, and its name where that
/// is the directory that unknown files are looked for in.
pub fn doctor_scope(default_dir: &str, ctl_socket: Option<&str>) -> (r: (
    String,
    String,
    Option<String>,
))
    ensures
        r.0@ == (match ctl_socket {
            Some(p) => p@,
            None => paths::joined(default_dir@, "ctl.sock"@),
        }),
        r.1@ == server_dir_of(r.0@, default_dir@),
        text::owned_view(r.2) == match paths::parent(r.0@) {
            Some(d) => if paths::same_path(d, default_dir@) {
                paths::file_name(r.0@)
            } else {
                None
            },
            None => None,
        },
{
    let ctl_path = match ctl_socket {
        Some(p) => copy(p),
        None => join_path(default_dir, "ctl.sock"),
    };
    match paths::parent_of(ctl_path.as_str()) {
        Some(d) => {
            let name = if paths::paths_equal(d.as_str(), default_dir) {
                paths::file_name_of(ctl_path.as_str())
            } else {
                None
            };
            (ctl_path, d, name)
        },
        None => (ctl_path, copy(default_dir), None),
    }
}

/// The titles of the groups of a report, in their order.
pub open spec fn group_titles() -> Seq<Seq<char>> {
    seq![
        "Configuration"@,
        "Local server"@,
        "Orphaned processes"@,
        "Tunnels"@,
        "Clients"@,
        "Sockets"@,
    ]
}

/// The findings as the groups of a report.
pub fn doctor_groups(
    config: Vec<Check>,
    server: Vec<Check>,
    orphans: Vec<Check>,
    tunnels: Vec<Check>,
    clients: Vec<Check>,
    sockets: Vec<Check>,
) -> (r: Vec<CheckGroup>)
    ensures
        r@.map_values(|g: CheckGroup| g.title@) == group_titles(),
        r@.map_values(|g: CheckGroup| g.checks) == seq![
            config,
            server,
            orphans,
            tunnels,
            clients,
            sockets,
        ],
{
    let r = vec![
        CheckGroup { title: copy("Configuration"), checks: config },
        CheckGroup { title: copy("Local server"), checks: server },
        CheckGroup { title: copy("Orphaned processes"), checks: orphans },
        CheckGroup { title: copy("Tunnels"), checks: tunnels },
        CheckGroup { title: copy("Clients"), checks: clients },
        CheckGroup { title: copy("Sockets"), checks: sockets },
    ];
    assert(r@.map_values(|g: CheckGroup| g.title@) =~= group_titles());
    r
}

/// A tunnel that is healthy is found good, one that is reconnecting is worth a
/// warning, and one whose process is gone is a failure, with a way out; each is
/// called by its name.
pub proof fn law_tunnels_are_judged_by_their_state(f: TunnelFacts, dir: Seq<char>)
    ensures
        ({
            let v = tunnel_findings(f, dir);
            &&& v.len() > 0
            &&& f.name@.is_prefix_of(v[0].message)
            &&& v[0].status is Good <==> f.status is Healthy
            &&& v[0].status is Warn <==> f.status is Reconnecting
            &&& v[0].status is Fail <==> f.status is Stale
            &&& f.status !is Healthy ==> v[0].hint is Some
            &&& f.status is Stale ==> v.len() == 1
        }),
{
    let v = tunnel_findings(f, dir);
    let m = v[0].message;
    assert(m.subrange(0, f.name@.len() as int) =~= f.name@);
}

/// A process that runs another program than the one on disk is told of: as a
/// failure where it speaks another protocol, else as a warning; one that does
/// not is not.
pub proof fn law_old_programs_are_told_of(
    stale: Option<runinfo::Difference>,
    label: Seq<char>,
    hint: Seq<char>,
)
    ensures
        stale is None <==> stale_finding(stale, label, hint).len() == 0,
        stale matches Some(d) ==> {
            let v = stale_finding(stale, label, hint);
            &&& v.len() == 1
            &&& v[0].status is Fail <==> d is Protocol
            &&& v[0].status is Warn <==> d is Build
            &&& v[0].hint == Some(hint)
            &&& runinfo::difference_text(d).is_suffix_of(v[0].message)
        },
{
    if let Some(d) = stale {
        let m = stale_finding(stale, label, hint)[0].message;
        let x = runinfo::difference_text(d);
        assert(m.subrange(m.len() - x.len(), m.len() as int) =~= x);
    }
}

/// The local server is found good where it answers, or where it is not there
/// and nothing says that it should be; a server on record whose process is
/// gone is a failure, and one that does not answer a warning.
pub proof fn law_the_server_is_judged_by_its_answer(f: ServerFacts, dir: Seq<char>)
    ensures
        ({
            let v = server_findings(f, dir);
            let gone = f.pid is Some && !f.pid_alive;
            &&& v.len() > 0
            &&& v[0].status is Fail <==> gone
            &&& v[0].status is Good <==> !gone && (f.probe is Ok || f.pid is None && !text::has_text(
                f.probe->Err_0@,
                "version mismatch"@,
            ))
            &&& gone ==> v[0].hint is Some
        }),
{
}

/// The socket directory is found good only where it is one's own and closed to
/// everybody else, or where it is not there yet.
pub proof fn law_the_socket_directory_must_be_private(d: DirFacts, socket_dir: Seq<char>)
    ensures
        dir_finding(d, socket_dir).status is Good <==> match d {
            DirFacts::Missing => true,
            DirFacts::Directory { mode, uid, my_uid } => uid == my_uid && mode % 512 == 0o700,
            _ => false,
        },
        d matches DirFacts::Directory { mode, uid, my_uid } ==> (dir_finding(d, socket_dir).status
            is Fail <==> uid != my_uid),
        d is Symlink || d is NotDirectory || d is Unreadable ==> dir_finding(d, socket_dir).status
            is Fail,
{
}

/// A config file that cannot be used is a failure, and nothing else about it
/// is.
pub proof fn law_only_a_bad_config_fails(s: ConfigStatus)
    ensures
        config_finding(s).status is Fail <==> s is Invalid,
        config_finding(s).status is Good <==> s !is Invalid,
{
}

/// The socket of a session that lives is never called an orphan, nor is the
/// server's own, a tunnel's, or one that answers; that of a session that is
/// gone is.
pub proof fn law_only_the_ownerless_are_orphans(f: FoundFile, live_ids: Seq<u32>, id: u32)
    ensures
        f.name@ == session_file("svc"@, id) || f.name@ == session_file("agent"@, id) ==> (is_orphan(
            f,
            live_ids,
        ) <==> !live_ids.contains(id)),
        f.name@ == "ctl.sock"@ ==> !is_orphan(f, live_ids),
        "connect-"@.is_prefix_of(f.name@) ==> !is_orphan(f, live_ids),
{
    if f.name@ == session_file("svc"@, id) {
        lemma_session_file("svc"@, id);
    }
    if f.name@ == session_file("agent"@, id) {
        lemma_session_file("agent"@, id);
    }
}

proof fn lemma_session_file(kind: Seq<char>, id: u32)
    requires
        kind == "svc"@ || kind == "agent"@,
    ensures
        ({
            let name = session_file(kind, id);
            &&& ".sock"@.is_suffix_of(name)
            &&& name != "ctl.sock"@
            &&& !"connect-"@.is_prefix_of(name)
            &&& session_socket_id(name) is Some
            &&& text::unsigned(session_socket_id(name)->0) == Some(id as nat)
        }),
{
    reveal_strlit("svc");
    reveal_strlit("agent");
    reveal_strlit("-");
    reveal_strlit("svc-");
    reveal_strlit("agent-");
    reveal_strlit(".sock");
    reveal_strlit("ctl.sock");
    reveal_strlit("connect-");
    text::law_decimal_round_trip(id as nat);
    let d = text::decimal(id as nat);
    let name = session_file(kind, id);
    let front = kind + "-"@;
    let e = ".sock"@;
    assert(name.subrange(name.len() - 5, name.len() as int) =~= e);
    assert(name[0] == kind[0]);
    assert("ctl.sock"@[0] == 'c' && "connect-"@[0] == 'c');
    if "connect-"@.is_prefix_of(name) {
        assert(name.subrange(0, 8)[0] == "connect-"@[0]);
    }
    if kind == "svc"@ {
        assert(front =~= "svc-"@);
        assert(name.subrange(0, 4) =~= "svc-"@);
        if "agent-"@.is_prefix_of(name) {
            assert(name.subrange(0, 6)[0] == "agent-"@[0]);
        }
        assert(name.skip(4) =~= d + e);
    } else {
        assert(front =~= "agent-"@);
        assert(name.subrange(0, 6) =~= "agent-"@);
        assert(name.skip(6) =~= d + e);
    }
    let rest = d + e;
    assert(rest.subrange(rest.len() - 5, rest.len() as int) =~= e);
    assert(rest.take(rest.len() - 5) =~= d);
}

/// Every orphan is told of, and nothing that is not one.
pub proof fn law_every_orphan_is_found(files: Seq<FoundFile>, live_ids: Seq<u32>, name: Seq<char>)
    ensures
        orphans(files, live_ids).contains(name) <==> exists|i: int|
            0 <= i < files.len() && #[trigger] is_orphan(files[i], live_ids) && files[i].name@
                == name,
    decreases files.len(),
{
    if files.len() > 0 {
        let init = files.drop_last();
        law_every_orphan_is_found(init, live_ids, name);
        let before = orphans(init, live_ids);
        let all = orphans(files, live_ids);
        let last = files[files.len() - 1];
        assert(last == files.last());
        if before.contains(name) {
            let k = choose|k: int| 0 <= k < before.len() && before[k] == name;
            assert(all[k] == name);
            let i = choose|i: int|
                0 <= i < init.len() && #[trigger] is_orphan(init[i], live_ids) && init[i].name@
                    == name;
            assert(is_orphan(files[i], live_ids));
        }
        if is_orphan(last, live_ids) && last.name@ == name {
            assert(all[all.len() - 1] == name);
            assert(is_orphan(files[files.len() - 1], live_ids));
        }
        if all.contains(name) && !before.contains(name) {
            let k = choose|k: int| 0 <= k < all.len() && all[k] == name;
            if k < before.len() {
                assert(before[k] == name);
            }
            assert(is_orphan(files[files.len() - 1], live_ids));
        }
        if exists|i: int|
            0 <= i < files.len() && #[trigger] is_orphan(files[i], live_ids) && files[i].name@
                == name {
            let i = choose|i: int|
                0 <= i < files.len() && #[trigger] is_orphan(files[i], live_ids) && files[i].name@
                    == name;
            if i < init.len() {
                assert(is_orphan(init[i], live_ids));
            }
        }
    }
}

proof fn lemma_some_counted(v: Seq<Check>, status: Status)
    ensures
        count_in(v, status) > 0 <==> exists|k: int|
            0 <= k < v.len() && (#[trigger] v[k]).status == status,
    decreases v.len(),
{
    if v.len() > 0 {
        let init = v.drop_last();
        lemma_some_counted(init, status);
        assert(v[v.len() - 1] == v.last());
        if exists|k: int| 0 <= k < init.len() && (#[trigger] init[k]).status == status {
            let k = choose|k: int| 0 <= k < init.len() && (#[trigger] init[k]).status == status;
            assert(v[k].status == status);
        }
        if exists|k: int| 0 <= k < v.len() && (#[trigger] v[k]).status == status {
            let k = choose|k: int| 0 <= k < v.len() && (#[trigger] v[k]).status == status;
            if k < init.len() {
                assert(init[k].status == status);
            }
        }
    }
}

/// The last line speaks of issues exactly where some check failed.
pub proof fn law_no_failure_goes_uncounted(groups: Seq<CheckGroup>, status: Status)
    ensures
        count_all(groups, status) > 0 <==> exists|i: int, k: int|
            0 <= i < groups.len() && 0 <= k < groups[i].checks@.len() && (
            #[trigger] groups[i].checks@[k]).status == status,
    decreases groups.len(),
{
    if groups.len() > 0 {
        let init = groups.drop_last();
        law_no_failure_goes_uncounted(init, status);
        lemma_some_counted(groups.last().checks@, status);
        let n = groups.len() - 1;
        assert(groups[n] == groups.last());
        if count_all(init, status) > 0 {
            let (i, k) = choose|i: int, k: int|
                0 <= i < init.len() && 0 <= k < init[i].checks@.len() && (
                #[trigger] init[i].checks@[k]).status == status;
            assert(groups[i].checks@[k].status == status);
        }
        if count_in(groups.last().checks@, status) > 0 {
            let k = choose|k: int|
                0 <= k < groups.last().checks@.len() && (
                #[trigger] groups.last().checks@[k]).status == status;
            assert(groups[n].checks@[k].status == status);
        }
        if exists|i: int, k: int|
            0 <= i < groups.len() && 0 <= k < groups[i].checks@.len() && (
            #[trigger] groups[i].checks@[k]).status == status {
            let (i, k) = choose|i: int, k: int|
                0 <= i < groups.len() && 0 <= k < groups[i].checks@.len() && (
                #[trigger] groups[i].checks@[k]).status == status;
            if i < n {
                assert(init[i].checks@[k].status == status);
            } else {
                assert(groups.last().checks@[k].status == status);
            }
        }
    }
}

} // verus!
