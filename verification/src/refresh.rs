//! `refresh`: restart what runs an older program than the one on disk, and
//! only that.

use vstd::prelude::*;
use crate::attach::ServerReply;
use crate::connect;
use crate::protocol::PROTOCOL_VERSION;
use crate::runinfo;
use crate::runinfo::{RunInfo, Staleness};
use crate::target;
use crate::target::{resolve_destination, tunnel_start_args};
use crate::text;
use crate::text::{cat2, cat3, cat4, cat7, copy, decimal_text};

verus! {

/// What was found of a process that runs for long.
#[derive(Debug, PartialEq, Eq)]
pub enum Verdict {
    NotRunning,
    Current,
    Stale(Staleness),
    /// It runs, but left no record. Whoever runs without one is old.
    Unknown,
}

/// What was found, as a value.
pub enum Found {
    NotRunning,
    Current,
    Stale(runinfo::Difference),
    Unknown,
}

impl View for Verdict {
    type V = Found;

    open spec fn view(&self) -> Found {
        match self {
            Verdict::NotRunning => Found::NotRunning,
            Verdict::Current => Found::Current,
            Verdict::Stale(s) => Found::Stale(s@),
            Verdict::Unknown => Found::Unknown,
        }
    }
}

/// What is made of a process: of one that is dead, no record counts.
pub open spec fn assessment(alive: bool, record: Option<RunInfo>, on_disk: RunInfo) -> Found {
    if !alive {
        Found::NotRunning
    } else {
        match record {
            Some(r) => match runinfo::difference(r, on_disk) {
                None => Found::Current,
                Some(d) => Found::Stale(d),
            },
            None => Found::Unknown,
        }
    }
}

/// What is made of a process, from whether it is alive, the record that it
/// left and the program on disk.
pub fn assess(alive: bool, record: Option<RunInfo>, on_disk: &RunInfo) -> (r: Verdict)
    ensures
        r@ == assessment(alive, record, *on_disk),
{
    if !alive {
        return Verdict::NotRunning;
    }
    match record {
        Some(r) => match r.staleness_vs(on_disk) {
            None => Verdict::Current,
            Some(s) => Verdict::Stale(s),
        },
        None => Verdict::Unknown,
    }
}

/// Whether a process must be restarted to run what is on disk.
pub open spec fn wants_restart(f: Found) -> bool {
    f is Stale || f is Unknown
}

pub open spec fn found_text(f: Found) -> Seq<char> {
    match f {
        Found::NotRunning => "not running"@,
        Found::Current => "up to date"@,
        Found::Stale(d) => runinfo::difference_text(d),
        Found::Unknown => "running, version unknown (predates .info)"@,
    }
}

impl Verdict {
    /// What was found, in words.
    pub fn message(&self) -> (r: String)
        ensures
            r@ == found_text(self@),
    {
        match self {
            Verdict::NotRunning => copy("not running"),
            Verdict::Current => copy("up to date"),
            Verdict::Stale(s) => s.message(),
            Verdict::Unknown => copy("running, version unknown (predates .info)"),
        }
    }

    /// Whether the process must be restarted to run what is on disk.
    pub fn needs_restart(&self) -> (r: bool)
        ensures
            r == wants_restart(self@),
    {
        match self {
            Verdict::Stale(_) => true,
            Verdict::Unknown => true,
            _ => false,
        }
    }
}

/// A process that was just started from what is on disk needs no restart: a
/// second refresh does nothing.
pub proof fn law_refresh_settles(on_disk: RunInfo)
    ensures
        assessment(true, Some(on_disk), on_disk) == Found::Current,
        !wants_restart(assessment(true, Some(on_disk), on_disk)),
{
}

/// A dead process is never restarted: refresh brings nothing up.
pub proof fn law_refresh_starts_nothing_new(record: Option<RunInfo>, on_disk: RunInfo)
    ensures
        !wants_restart(assessment(false, record, on_disk)),
{
}

/// What the local server's verdict is said as.
pub fn local_verdict_line(v: &Verdict) -> (r: String)
    ensures
        r@ == "local daemon: "@ + found_text(v@),
{
    cat2("local daemon: ", v.message().as_str())
}

/// What a tunnel's verdict is said as.
pub fn supervisor_verdict_line(host: &str, v: &Verdict) -> (r: String)
    ensures
        r@ == host@ + " supervisor: "@ + found_text(v@),
{
    cat3(host, " supervisor: ", v.message().as_str())
}

/// What follows when the local server was asked to end.
pub enum AfterKill {
    /// Go on without a word.
    Quiet,
    /// Say this and go on.
    Say(String),
    /// The socket is stuck: signal the process, if its number is known.
    Signal(Option<i32>),
}

/// The process number that a file holds.
pub open spec fn signed_pid(contents: Seq<char>) -> Option<i32> {
    let t = text::trimmed(contents);
    let minus = t.len() > 0 && t[0] == '-';
    let d = if minus {
        t.skip(1)
    } else {
        text::after_plus(t)
    };
    if d.len() > 0 && text::all_digits(d) {
        let n = text::digits_value(d) as int;
        let v = if minus {
            -n
        } else {
            n
        };
        if i32::MIN <= v <= i32::MAX {
            Some(v as i32)
        } else {
            None
        }
    } else {
        None
    }
}

/// Read the process number that a file holds.
pub fn read_signed_pid(contents: &str) -> (r: Option<i32>)
    ensures
        r == signed_pid(contents@),
{
    let t = text::trim(contents);
    let v = text::chars_of(t.as_str());
    if v.len() > 0 && v[0] == '-' {
        let d = text::text_between(&v, 1, v.len());
        assert(d@ == t@.skip(1));
        proof {
            if d@.len() > 0 && d@[0] == '+' {
                assert(!text::is_digit_char(d@[0]));
                assert(!text::all_digits(d@));
            }
        }
        if d.as_str().unicode_len() > 0 && d.as_str().get_char(0) == '+' {
            return None;
        }
        match text::parse_unsigned(d.as_str(), 2147483648) {
            Some(n) => {
                let m: i64 = -(n as i64);
                Some(m as i32)
            },
            None => None,
        }
    } else {
        match text::parse_unsigned(t.as_str(), 2147483647) {
            Some(n) => Some(n as i32),
            None => None,
        }
    }
}

/// Whether this follows when the local server was asked to end.
pub open spec fn kill_sequel(
    reply: Option<ServerReply>,
    shown: Seq<char>,
    pid_file: Option<Seq<char>>,
    r: AfterKill,
) -> bool {
    match reply {
        Some(ServerReply::Granted) => r is Quiet,
        Some(ServerReply::Failed { message, .. }) => r is Say && r->Say_0@ == "kill-server: "@
            + message@ + " (continuing)"@,
        Some(_) => r is Say && r->Say_0@ == "kill-server: unexpected response "@ + shown
            + " (continuing)"@,
        None => r == AfterKill::Signal(
            match pid_file {
                Some(c) => signed_pid(c),
                None => None,
            },
        ),
    }
}

/// Only a server that cannot be reached is signalled, by the number that its
/// own file holds; one that answers is taken at its word.
pub proof fn law_only_stuck_servers_are_signalled(
    reply: Option<ServerReply>,
    shown: Seq<char>,
    pid: i32,
    r: AfterKill,
)
    requires
        kill_sequel(reply, shown, Some(text::decimal(pid as nat)), r),
        pid >= 0,
    ensures
        r is Signal <==> reply is None,
        r matches AfterKill::Signal(p) ==> p == Some(pid),
        reply is Some ==> (r is Quiet <==> reply->0 is Granted),
{
    let d = text::decimal(pid as nat);
    text::law_decimal_round_trip(pid as nat);
    assert(text::is_digit_char(d[0]) && text::is_digit_char(d.last()));
    assert(text::trimmed(d) == d);
}

/// What follows when the local server was asked to end: its answer, if it was
/// reached, and the same as it is shown.
pub fn after_kill(reply: Option<ServerReply>, shown: &str, pid_file: Option<&str>) -> (r: AfterKill)
    ensures
        kill_sequel(reply, shown@, text::str_view(pid_file), r),
{
    match reply {
        Some(ServerReply::Granted) => AfterKill::Quiet,
        Some(ServerReply::Failed { message, .. }) => AfterKill::Say(
            cat3("kill-server: ", message.as_str(), " (continuing)"),
        ),
        Some(_) => AfterKill::Say(cat3("kill-server: unexpected response ", shown, " (continuing)")),
        None => match pid_file {
            Some(c) => AfterKill::Signal(read_signed_pid(c)),
            None => AfterKill::Signal(None),
        },
    }
}

/// The ssh options for a tunnel.
pub open spec fn merged(persisted: Seq<Seq<char>>, configured: Seq<Seq<char>>) -> Seq<Seq<char>> {
    persisted + configured
}

/// No option is lost, and one that the tunnel was made with comes before all
/// that the config adds.
pub proof fn law_persisted_options_come_first(
    persisted: Seq<Seq<char>>,
    configured: Seq<Seq<char>>,
    i: int,
    j: int,
)
    requires
        0 <= i < persisted.len(),
        0 <= j < configured.len(),
    ensures
        merged(persisted, configured).len() == persisted.len() + configured.len(),
        merged(persisted, configured)[i] == persisted[i],
        merged(persisted, configured)[persisted.len() + j] == configured[j],
{
}

/// The ssh options for a tunnel: those it was made with first, since ssh goes
/// by the first that it meets.
pub fn merge_ssh_options(persisted: &Vec<String>, configured: &Vec<String>) -> (r: Vec<String>)
    ensures
        text::views(r@) == merged(text::views(persisted@), text::views(configured@)),
{
    let mut r = text::copy_all(persisted);
    text::append_all(&mut r, configured);
    r
}

/// What is said after the other side was asked to refresh itself.
pub fn remote_refresh_note(host: &str, outcome: Result<bool, String>) -> (r: Option<String>)
    ensures
        text::owned_view(r) == match outcome {
            Ok(done) => if done {
                None
            } else {
                Some(
                    host@ + ": remote `gritty refresh local` failed -- remote binary may predate `refresh`; run `gritty restart "@
                        + host@ + "` or update the remote binary"@,
                )
            },
            Err(e) => Some(host@ + ": could not reach remote: "@ + e@),
        },
{
    match outcome {
        Ok(done) => if done {
            None
        } else {
            Some(
                cat4(
                    host,
                    ": remote `gritty refresh local` failed -- remote binary may predate `refresh`; run `gritty restart ",
                    host,
                    "` or update the remote binary",
                ),
            )
        },
        Err(e) => Some(cat3(host, ": could not reach remote: ", e.as_str())),
    }
}

pub open spec fn outdated_text(host: Seq<char>, remote: u16, local: u16) -> Seq<char> {
    host + ": remote daemon speaks protocol v"@ + text::decimal(remote as nat)
        + " but local gritty speaks v"@ + text::decimal(local as nat)
        + " -- the remote gritty binary itself is a different release, which refresh cannot fix. Run `gritty bootstrap "@
        + host + "` (or update gritty on the remote by hand), then `gritty refresh "@ + host
        + "` again"@
}

/// What is said when the program on the other side speaks another protocol:
/// no restart can repair that.
pub fn remote_binary_outdated_msg(host: &str, remote: u16, local: u16) -> (r: String)
    ensures
        r@ == outdated_text(host@, remote, local),
{
    let a = decimal_text(remote as u64);
    let b = decimal_text(local as u64);
    let mut r = cat7(
        host,
        ": remote daemon speaks protocol v",
        a.as_str(),
        " but local gritty speaks v",
        b.as_str(),
        " -- the remote gritty binary itself is a different release, which refresh cannot fix. Run `gritty bootstrap ",
        host,
    );
    r.append("` (or update gritty on the remote by hand), then `gritty refresh ");
    r.append(host);
    r.append("` again");
    r
}

/// How a refresh of a remote host ends.
pub enum Verified {
    /// Say that all is well.
    Good(String),
    /// Say this, and count the refresh as done all the same.
    Unsure(String),
    /// Fail with this.
    Outdated(String),
}

pub open spec fn verified_text(host: Seq<char>, v: u16) -> Seq<char> {
    host + ": end-to-end protocol verified (v"@ + text::decimal(v as nat) + ")"@
}

pub open spec fn unsure_text(host: Seq<char>, e: Seq<char>) -> Seq<char> {
    host + ": could not verify protocol end to end ("@ + e + "); try `gritty connect "@ + host
        + "` to test the path"@
}

/// Whether a refresh of a remote host ends like this.
pub open spec fn is_verdict(host: Seq<char>, probed: Result<u16, String>, r: Verified) -> bool {
    match probed {
        Ok(v) => if v == PROTOCOL_VERSION {
            r is Good && r->Good_0@ == verified_text(host, v)
        } else {
            r is Outdated && r->Outdated_0@ == outdated_text(host, v, PROTOCOL_VERSION)
        },
        Err(e) => r is Unsure && r->Unsure_0@ == unsure_text(host, e@),
    }
}

/// Only a server that speaks this protocol is found good; one that speaks
/// another is outdated, and of one that did not answer nothing is claimed.
pub proof fn law_only_matching_protocols_are_good(
    host: Seq<char>,
    probed: Result<u16, String>,
    r: Verified,
)
    requires
        is_verdict(host, probed, r),
    ensures
        r is Good <==> probed == Ok::<u16, String>(PROTOCOL_VERSION),
        r is Unsure <==> probed is Err,
        r is Outdated <==> probed is Ok && probed->Ok_0 != PROTOCOL_VERSION,
{
}

/// How a refresh of a remote host ends, by the protocol version at the other
/// end or what went wrong in asking for it.
pub fn verify_protocol(host: &str, probed: Result<u16, String>) -> (r: Verified)
    ensures
        is_verdict(host@, probed, r),
{
    match probed {
        Ok(v) => if v == PROTOCOL_VERSION {
            Verified::Good(
                cat4(
                    host,
                    ": end-to-end protocol verified (v",
                    decimal_text(v as u64).as_str(),
                    ")",
                ),
            )
        } else {
            Verified::Outdated(remote_binary_outdated_msg(host, v, PROTOCOL_VERSION))
        },
        Err(e) => Verified::Unsure(
            text::cat6(
                host,
                ": could not verify protocol end to end (",
                e.as_str(),
                "); try `gritty connect ",
                host,
                "` to test the path",
            ),
        ),
    }
}

#[derive(Clone, Copy, PartialEq, Eq, Structural)]
pub enum RemotePhase {
    /// The tunnel is looked at.
    Assessing,
    /// The other side refreshes itself.
    Delegating,
    /// The tunnel is taken down.
    Stopping,
    /// The tunnel is started.
    Starting,
    /// The other end is asked for its protocol.
    Verifying,
    Over,
}

/// A refresh of a remote host.
pub struct RemoteRefresh {
    pub host: String,
    pub config_dest: Option<String>,
    pub phase: RemotePhase,
    pub restart: bool,
    /// The words that start the tunnel again.
    pub args: Vec<String>,
}

/// The state of such a refresh, as a value.
pub struct RemoteModel {
    pub host: Seq<char>,
    pub config_dest: Option<Seq<char>>,
    pub phase: RemotePhase,
    pub restart: bool,
    pub args: Seq<Seq<char>>,
}

impl View for RemoteRefresh {
    type V = RemoteModel;

    open spec fn view(&self) -> RemoteModel {
        RemoteModel {
            host: self.host@,
            config_dest: text::owned_view(self.config_dest),
            phase: self.phase,
            restart: self.restart,
            args: text::views(self.args@),
        }
    }
}

/// What happened.
pub enum RemoteEvent {
    /// The tunnel's process was assessed; the files that record where the
    /// tunnel leads and with which options.
    Assessed { verdict: Verdict, dest_file: Option<String>, options_file: Option<String> },
    /// The other side was asked: whether it managed, or why it was not
    /// reached.
    Delegated(Result<bool, String>),
    Stopped(Result<(), String>),
    Started(Result<(), String>),
    /// The protocol at the other end, or what went wrong.
    Probed(Result<u16, String>),
}

/// What to do next.
pub enum RemoteAction {
    /// Say this, then ask the program at this destination to refresh itself.
    Delegate { say: String, destination: String },
    /// Say this if there is anything, then take the tunnel down.
    Stop { note: Option<String> },
    /// Start with these words.
    Start { args: Vec<String> },
    /// Say this if there is anything, then ask the other end.
    Probe { note: Option<String> },
    Done(Option<Verified>),
    Fail(String),
}

/// The step from one state to the next, and what to do then.
pub open spec fn remote_effect(
    pre: RemoteModel,
    event: RemoteEvent,
    post: RemoteModel,
    a: RemoteAction,
) -> bool {
    match (pre.phase, event) {
        (
            RemotePhase::Assessing,
            RemoteEvent::Assessed { verdict, dest_file, options_file },
        ) => if verdict@ is NotRunning {
            &&& post == (RemoteModel { phase: RemotePhase::Over, ..pre })
            &&& a is Done && a->Done_0 is None
        } else {
            let dest = target::destination_of(
                pre.host,
                text::owned_view(dest_file),
                pre.config_dest,
            );
            &&& post == (RemoteModel {
                phase: RemotePhase::Delegating,
                restart: wants_restart(verdict@),
                args: connect::recreate_words(
                    pre.host,
                    dest,
                    match options_file {
                        Some(c) => connect::filled_lines(text::lines(c@)),
                        None => Seq::<Seq<char>>::empty(),
                    },
                ),
                ..pre
            })
            &&& a is Delegate && a->destination@ == dest
            &&& a->say@ == pre.host + ": checking remote daemon..."@
        },
        (RemotePhase::Delegating, RemoteEvent::Delegated(o)) => {
            let note = match o {
                Ok(done) => if done {
                    None
                } else {
                    Some(
                        pre.host
                            + ": remote `gritty refresh local` failed -- remote binary may predate `refresh`; run `gritty restart "@
                            + pre.host + "` or update the remote binary"@,
                    )
                },
                Err(e) => Some(pre.host + ": could not reach remote: "@ + e@),
            };
            if pre.restart {
                &&& post == (RemoteModel { phase: RemotePhase::Stopping, ..pre })
                &&& a is Stop && text::owned_view(a->Stop_note) == note
            } else {
                &&& post == (RemoteModel { phase: RemotePhase::Verifying, ..pre })
                &&& a is Probe && text::owned_view(a->Probe_note) == note
            }
        },
        (RemotePhase::Stopping, RemoteEvent::Stopped(r)) => match r {
            Ok(_) => {
                &&& post == (RemoteModel { phase: RemotePhase::Starting, ..pre })
                &&& a is Start && text::views(a->args@) == pre.args
            },
            Err(e) => {
                &&& post == (RemoteModel { phase: RemotePhase::Over, ..pre })
                &&& a is Fail && a->Fail_0@ == e@
            },
        },
        (RemotePhase::Starting, RemoteEvent::Started(r)) => match r {
            Ok(_) => {
                &&& post == (RemoteModel { phase: RemotePhase::Verifying, ..pre })
                &&& a is Probe && text::owned_view(a->Probe_note) == Some(
                    pre.host + " supervisor restarted"@,
                )
            },
            Err(e) => {
                &&& post == (RemoteModel { phase: RemotePhase::Over, ..pre })
                &&& a is Fail && a->Fail_0@ == e@
            },
        },
        (RemotePhase::Verifying, RemoteEvent::Probed(p)) => {
            &&& post == (RemoteModel { phase: RemotePhase::Over, ..pre })
            &&& match p {
                Ok(v) => if v == PROTOCOL_VERSION {
                    a is Done && a->Done_0 is Some && a->Done_0->0 is Good
                        && a->Done_0->0->Good_0@ == verified_text(pre.host, v)
                } else {
                    a is Fail && a->Fail_0@ == outdated_text(pre.host, v, PROTOCOL_VERSION)
                },
                Err(e) => a is Done && a->Done_0 is Some && a->Done_0->0 is Unsure
                    && a->Done_0->0->Unsure_0@ == unsure_text(pre.host, e@),
            }
        },
        // Nothing else can happen.
        (_, _) => {
            &&& post == (RemoteModel { phase: RemotePhase::Over, ..pre })
            &&& a is Fail && a->Fail_0@ == "refresh failed"@
        },
    }
}

/// The state before the tunnel is looked at.
pub open spec fn looking_in(host: Seq<char>, config_dest: Option<Seq<char>>) -> RemoteModel {
    RemoteModel {
        host,
        config_dest,
        phase: RemotePhase::Assessing,
        restart: false,
        args: Seq::empty(),
    }
}

impl RemoteRefresh {
    /// Begin: the first thing to do is to assess the tunnel's process.
    pub fn new(host: &str, config_dest: Option<String>) -> (r: RemoteRefresh)
        ensures
            r@ == looking_in(host@, text::owned_view(config_dest)),
    {
        let args: Vec<String> = Vec::new();
        assert(text::views(args@) =~= Seq::<Seq<char>>::empty());
        RemoteRefresh {
            host: copy(host),
            config_dest,
            phase: RemotePhase::Assessing,
            restart: false,
            args,
        }
    }

    fn fail(&mut self, s: String) -> (a: RemoteAction)
        ensures
            final(self)@ == (RemoteModel { phase: RemotePhase::Over, ..old(self)@ }),
            a is Fail && a->Fail_0@ == s@,
    {
        self.phase = RemotePhase::Over;
        RemoteAction::Fail(s)
    }

    /// Take in what happened.
    pub fn step(&mut self, event: RemoteEvent) -> (a: RemoteAction)
        ensures
            remote_effect(old(self)@, event, final(self)@, a),
    {
        match self.phase {
            RemotePhase::Assessing => match event {
                RemoteEvent::Assessed { verdict, dest_file, options_file } => {
                    match &verdict {
                        Verdict::NotRunning => {
                            self.phase = RemotePhase::Over;
                            return RemoteAction::Done(None);
                        },
                        _ => {},
                    }
                    let dest = match &dest_file {
                        Some(s) => Some(s.as_str()),
                        None => None,
                    };
                    let opts = match &options_file {
                        Some(s) => Some(s.as_str()),
                        None => None,
                    };
                    let implied = match &self.config_dest {
                        Some(s) => Some(s.as_str()),
                        None => None,
                    };
                    let destination = resolve_destination(self.host.as_str(), dest, implied);
                    let args = tunnel_start_args(self.host.as_str(), dest, implied, opts);
                    self.args = args;
                    self.restart = verdict.needs_restart();
                    self.phase = RemotePhase::Delegating;
                    let say = cat2(self.host.as_str(), ": checking remote daemon...");
                    RemoteAction::Delegate { say, destination }
                },
                _ => self.fail(copy("refresh failed")),
            },
            RemotePhase::Delegating => match event {
                RemoteEvent::Delegated(o) => {
                    let note = remote_refresh_note(self.host.as_str(), o);
                    if self.restart {
                        self.phase = RemotePhase::Stopping;
                        RemoteAction::Stop { note }
                    } else {
                        self.phase = RemotePhase::Verifying;
                        RemoteAction::Probe { note }
                    }
                },
                _ => self.fail(copy("refresh failed")),
            },
            RemotePhase::Stopping => match event {
                RemoteEvent::Stopped(r) => match r {
                    Ok(_) => {
                        self.phase = RemotePhase::Starting;
                        RemoteAction::Start { args: text::copy_all(&self.args) }
                    },
                    Err(e) => self.fail(e),
                },
                _ => self.fail(copy("refresh failed")),
            },
            RemotePhase::Starting => match event {
                RemoteEvent::Started(r) => match r {
                    Ok(_) => {
                        self.phase = RemotePhase::Verifying;
                        let line = cat2(self.host.as_str(), " supervisor restarted");
                        RemoteAction::Probe { note: Some(line) }
                    },
                    Err(e) => self.fail(e),
                },
                _ => self.fail(copy("refresh failed")),
            },
            RemotePhase::Verifying => match event {
                RemoteEvent::Probed(p) => match verify_protocol(self.host.as_str(), p) {
                    Verified::Outdated(m) => self.fail(m),
                    other => {
                        self.phase = RemotePhase::Over;
                        RemoteAction::Done(Some(other))
                    },
                },
                _ => self.fail(copy("refresh failed")),
            },
            RemotePhase::Over => self.fail(copy("refresh failed")),
        }
    }
}

/// The tunnel is restarted after the other side, and only where its process
/// runs an old program.
pub proof fn law_supervisor_restarts_last(
    pre: RemoteModel,
    event: RemoteEvent,
    post: RemoteModel,
    a: RemoteAction,
)
    requires
        remote_effect(pre, event, post, a),
        a is Stop,
    ensures
        pre.phase == RemotePhase::Delegating,
        pre.restart,
        event is Delegated,
{
}

/// One step of a refresh.
pub struct RemoteStep {
    pub pre: RemoteModel,
    pub event: RemoteEvent,
    pub post: RemoteModel,
    pub action: RemoteAction,
}

/// Whether these are the steps of a refresh, each the outcome of what was last
/// to be done; the first thing to do is to look at the tunnel.
pub open spec fn is_refresh(start: RemoteModel, run: Seq<RemoteStep>) -> bool
    decreases run.len(),
{
    run.len() == 0 || {
        let before = run.drop_last();
        let t = run.last();
        &&& is_refresh(start, before)
        &&& remote_effect(t.pre, t.event, t.post, t.action)
        &&& if before.len() == 0 {
            t.pre == start && t.event is Assessed
        } else {
            &&& t.pre == before.last().post
            &&& match before.last().action {
                RemoteAction::Delegate { .. } => t.event is Delegated,
                RemoteAction::Stop { .. } => t.event is Stopped,
                RemoteAction::Start { .. } => t.event is Started,
                RemoteAction::Probe { .. } => t.event is Probed,
                _ => false,
            }
        }
    }
}

/// Where a tunnel leads, as it is recorded.
pub open spec fn recorded_destination(
    host: Seq<char>,
    config_dest: Option<Seq<char>>,
    assessed: RemoteEvent,
) -> Seq<char> {
    target::destination_of(host, text::owned_view(assessed->dest_file), config_dest)
}

proof fn lemma_refresh(start: RemoteModel, run: Seq<RemoteStep>)
    requires
        is_refresh(start, run),
        run.len() > 0,
        start.phase is Assessing,
    ensures
        ({
            let m = run.last().post;
            let first = run[0].event;
            &&& m.host == start.host && m.config_dest == start.config_dest
            &&& first is Assessed
            &&& m.phase == match run.last().action {
                RemoteAction::Delegate { .. } => RemotePhase::Delegating,
                RemoteAction::Stop { .. } => RemotePhase::Stopping,
                RemoteAction::Start { .. } => RemotePhase::Starting,
                RemoteAction::Probe { .. } => RemotePhase::Verifying,
                _ => RemotePhase::Over,
            }
            &&& !(m.phase is Over) ==> {
                &&& first->verdict@ !is NotRunning
                &&& m.restart == (first->verdict@ is Stale || first->verdict@ is Unknown)
                &&& m.args == connect::recreate_words(
                    start.host,
                    recorded_destination(start.host, start.config_dest, first),
                    match first->options_file {
                        Some(c) => connect::filled_lines(text::lines(c@)),
                        None => Seq::<Seq<char>>::empty(),
                    },
                )
            }
        }),
    decreases run.len(),
{
    if run.len() > 1 {
        lemma_refresh(start, run.drop_last());
        assert(run.drop_last()[0] == run[0]);
    }
}

/// A refresh reaches both ends. A tunnel that does not run is left alone; for
/// one that does, the other side is asked to refresh itself, a tunnel whose
/// process runs another program than the one on disk is taken down and brought
/// back as it was recorded, and in the end the two sides are found to speak
/// the same protocol, or it is said that they do not.
pub proof fn law_refresh_reaches_both_ends(
    host: Seq<char>,
    config_dest: Option<Seq<char>>,
    run: Seq<RemoteStep>,
)
    requires
        is_refresh(looking_in(host, config_dest), run),
        run.len() > 0,
    ensures
        ({
            let a = run.last().action;
            let first = run[0].event;
            let old_program = first->verdict@ is Stale || first->verdict@ is Unknown;
            &&& first is Assessed
            &&& match run.last().event {
                RemoteEvent::Assessed { verdict, .. } => if verdict@ is NotRunning {
                    a is Done && a->Done_0 is None
                } else {
                    a is Delegate && a->destination@ == recorded_destination(
                        host,
                        config_dest,
                        first,
                    )
                },
                RemoteEvent::Delegated(o) => {
                    let done = o == Ok::<bool, String>(true);
                    &&& old_program ==> a is Stop && (a->Stop_note is None <==> done)
                    &&& !old_program ==> a is Probe && (a->Probe_note is None <==> done)
                },
                RemoteEvent::Stopped(Ok(_)) => a is Start && text::views(a->args@)
                    == connect::recreate_words(
                    host,
                    recorded_destination(host, config_dest, first),
                    match first->options_file {
                        Some(c) => connect::filled_lines(text::lines(c@)),
                        None => Seq::<Seq<char>>::empty(),
                    },
                ),
                RemoteEvent::Stopped(Err(e)) => a is Fail && a->Fail_0@ == e@,
                RemoteEvent::Started(Ok(_)) => a is Probe && a->Probe_note is Some,
                RemoteEvent::Started(Err(e)) => a is Fail && a->Fail_0@ == e@,
                RemoteEvent::Probed(Ok(v)) => if v == PROTOCOL_VERSION {
                    a is Done && a->Done_0 is Some && a->Done_0->0 is Good
                } else {
                    a is Fail
                },
                RemoteEvent::Probed(Err(_)) => a is Done && a->Done_0 is Some && a->Done_0->0
                    is Unsure,
            }
        }),
{
    let start = looking_in(host, config_dest);
    lemma_refresh(start, run);
    if run.len() > 1 {
        lemma_refresh(start, run.drop_last());
        assert(run.drop_last()[0] == run[0]);
    }
}

/// How a refresh of everything ends.
pub fn refresh_summary(failed: u64) -> (r: Result<(), String>)
    ensures
        r is Ok <==> failed == 0,
        r matches Err(e) ==> e@ == "refresh failed for "@ + text::decimal(failed as nat)
            + " target(s) (see errors above)"@,
{
    if failed > 0 {
        let n = decimal_text(failed);
        return Err(
            cat3("refresh failed for ", n.as_str(), " target(s) (see errors above)"),
        );
    }
    Ok(())
}

/// What is said of a target whose refresh failed.
pub fn refresh_error_line(name: &str, error: &str) -> (r: String)
    ensures
        r@ == "refresh "@ + name@ + ": "@ + error@,
{
    cat4("refresh ", name, ": ", error)
}

/// What is said of a lost server after the attempt to end it.
pub fn reaped_line(pid: u32, outcome: Result<(), String>) -> (r: String)
    ensures
        r@ == match outcome {
            Ok(_) => "reaped orphaned daemon pid "@ + text::decimal(pid as nat),
            Err(e) => "could not kill orphan pid "@ + text::decimal(pid as nat) + ": "@ + e@,
        },
{
    let n = decimal_text(pid as u64);
    match outcome {
        Ok(_) => cat2("reaped orphaned daemon pid ", n.as_str()),
        Err(e) => cat4("could not kill orphan pid ", n.as_str(), ": ", e.as_str()),
    }
}

/// What is said of a server that looks lost.
pub fn suspect_line(shown: &str) -> (r: String)
    ensures
        r@ == "possible orphaned daemon: "@ + shown@,
{
    cat2("possible orphaned daemon: ", shown)
}

/// What is said while lost servers get time to recover.
pub fn confirming_line(secs: u64) -> (r: String)
    ensures
        r@ == "confirming ("@ + text::decimal(secs as nat) + "s grace for self-heal)..."@,
{
    let n = decimal_text(secs);
    cat3("confirming (", n.as_str(), "s grace for self-heal)...")
}

pub open spec fn reaped_texts(v: Seq<(u32, Result<(), String>)>) -> Seq<Seq<char>> {
    v.map_values(
        |p: (u32, Result<(), String>)|
            match p.1 {
                Ok(_) => "reaped orphaned daemon pid "@ + text::decimal(p.0 as nat),
                Err(e) => "could not kill orphan pid "@ + text::decimal(p.0 as nat) + ": "@ + e@,
            },
    )
}

/// What is said of the servers that were still lost after that time.
pub fn reap_report(reaped: Vec<(u32, Result<(), String>)>) -> (r: Vec<String>)
    ensures
        text::views(r@) == if reaped@.len() == 0 {
            seq!["no orphans confirmed (recovered on their own)"@]
        } else {
            reaped_texts(reaped@)
        },
{
    let mut r: Vec<String> = Vec::new();
    if reaped.len() == 0 {
        r.push(copy("no orphans confirmed (recovered on their own)"));
        assert(text::views(r@) =~= seq!["no orphans confirmed (recovered on their own)"@]);
        return r;
    }
    let ghost want = reaped_texts(reaped@);
    let mut i: usize = 0;
    assert(text::views(r@) =~= want.take(0));
    while i < reaped.len()
        invariant
            i <= reaped@.len(),
            want == reaped_texts(reaped@),
            text::views(r@) == want.take(i as int),
        decreases reaped@.len() - i,
    {
        let line = match &reaped[i].1 {
            Ok(_) => reaped_line(reaped[i].0, Ok(())),
            Err(e) => reaped_line(reaped[i].0, Err(copy(e.as_str()))),
        };
        proof {
            text::lemma_views_push(r@, line);
            assert(want[i as int] == line@);
            assert(want.take(i + 1) =~= want.take(i as int).push(line@));
        }
        r.push(line);
        i = i + 1;
    }
    assert(want.take(i as int) =~= want);
    r
}

} // verus!
