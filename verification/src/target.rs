//! What a command is aimed at: `host:session` targets, the socket behind a
//! host, and getting a server to answer there.

use vstd::prelude::*;
use crate::config;
use crate::config::ConfigFile;
use crate::connect;
use crate::connect::{connection_socket_path, tunnel_recreate_args, TunnelInfo};
use crate::paths;
use crate::paths::join_path;
use crate::protocol::SessionEntry;
use crate::text;
use crate::text::{
    cat2,
    cat3,
    cat5,
    copy,
    cut_at,
    join_texts,
    parse_unsigned,
    same,
    trim,
};

verus! {

/// The host and the session of a target: what stands before and after the
/// first colon. An empty session is none.
pub open spec fn target_parts(s: Seq<char>) -> (Seq<char>, Option<Seq<char>>) {
    if s.contains(':') {
        let k = text::first_index(s, ':');
        (
            s.take(k),
            if k + 1 < s.len() {
                Some(s.skip(k + 1))
            } else {
                None
            },
        )
    } else {
        (s, None)
    }
}

pub open spec fn target_view(t: (String, Option<String>)) -> (Seq<char>, Option<Seq<char>>) {
    (t.0@, text::owned_view(t.1))
}

/// Split a `host:session` target whose host is already a real name.
pub fn split_target(s: &str) -> (r: (String, Option<String>))
    ensures
        target_view(r) == target_parts(s@),
{
    proof {
        text::lemma_first_index(s@, ':');
    }
    match cut_at(s, ':') {
        Some((host, session)) => {
            if session.as_str().unicode_len() > 0 {
                (host, Some(session))
            } else {
                (host, None)
            }
        },
        None => (copy(s), None),
    }
}

/// The parts of a target with the host that its name stands for.
pub open spec fn aimed_at(c: ConfigFile, s: Seq<char>) -> (Seq<char>, Option<Seq<char>>) {
    (config::canonical(c, target_parts(s).0), target_parts(s).1)
}

/// Read a `host:session` target: every way to name a host leads to the same
/// one. The session is taken as it is.
pub fn parse_target(config: &ConfigFile, s: &str) -> (r: (String, Option<String>))
    ensures
        target_view(r) == aimed_at(*config, s@),
{
    let (host, session) = split_target(s);
    (config.canonical_host(host.as_str()), session)
}

/// Read a target that may be left out: then it is the local host.
pub fn split_optional_target(config: &ConfigFile, target: Option<&str>) -> (r: (
    String,
    Option<String>,
))
    ensures
        target_view(r) == match target {
            Some(t) => aimed_at(*config, t@),
            None => ("local"@, None),
        },
{
    match target {
        Some(t) => parse_target(config, t),
        None => (copy("local"), None),
    }
}

/// Read a host that may be left out: then it is the local one.
pub fn parse_host_or_local(config: &ConfigFile, target: Option<&str>) -> (r: String)
    ensures
        r@ == match target {
            Some(t) => aimed_at(*config, t@).0,
            None => "local"@,
        },
{
    match target {
        Some(t) => parse_target(config, t).0,
        None => copy("local"),
    }
}

/// The socket behind a host.
pub open spec fn ctl_path_of(
    dir: Seq<char>,
    ctl_socket: Option<Seq<char>>,
    host: Option<Seq<char>>,
) -> Option<Seq<char>> {
    match ctl_socket {
        Some(p) => Some(p),
        None => match host {
            Some(h) => Some(
                if h == "local"@ {
                    paths::joined(dir, "ctl.sock"@)
                } else {
                    connect::tunnel_file(dir, h, ".sock"@)
                },
            ),
            None => None,
        },
    }
}

/// The socket behind a host. One that was given outright wins; otherwise a
/// host must be named.
pub fn resolve_ctl_path(
    socket_dir: &str,
    ctl_socket: Option<String>,
    host: Option<&str>,
) -> (r: Result<String, String>)
    ensures
        match ctl_path_of(socket_dir@, text::owned_view(ctl_socket), text::str_view(host)) {
            Some(p) => r is Ok && r->Ok_0@ == p,
            None => r is Err && r->Err_0@
                == "specify a host (e.g. `local`, or a tunnel name) or use --ctl-socket <path>"@,
        },
{
    if let Some(p) = ctl_socket {
        return Ok(p);
    }
    match host {
        Some(h) => {
            if same(h, "local") {
                Ok(join_path(socket_dir, "ctl.sock"))
            } else {
                Ok(connection_socket_path(socket_dir, h))
            }
        },
        None => Err(
            copy("specify a host (e.g. `local`, or a tunnel name) or use --ctl-socket <path>"),
        ),
    }
}

/// The words that start a server on the socket that was asked for.
pub open spec fn server_words(ctl_socket: Option<Seq<char>>) -> Seq<Seq<char>> {
    match ctl_socket {
        Some(s) => seq!["--ctl-socket"@, s, "server"@],
        None => seq!["server"@],
    }
}

/// The words that start a server on the socket that was asked for.
pub fn server_auto_start_args(ctl_socket: Option<&str>) -> (r: Vec<String>)
    ensures
        text::views(r@) == server_words(text::str_view(ctl_socket)),
{
    let r = match ctl_socket {
        Some(s) => vec![copy("--ctl-socket"), copy(s), copy("server")],
        None => vec![copy("server")],
    };
    assert(text::views(r@) =~= server_words(text::str_view(ctl_socket)));
    r
}

/// The words that this program starts itself with, given what to start:
/// a start in talkative mode makes the new process talkative too.
pub fn auto_start_args(args: &Vec<String>, verbose: bool) -> (r: Vec<String>)
    ensures
        text::views(r@) == text::views(args@) + (if verbose {
            seq!["--verbose"@]
        } else {
            seq![]
        }),
{
    let mut r = text::copy_all(args);
    if verbose {
        let flag = copy("--verbose");
        proof {
            text::lemma_views_push(r@, flag);
        }
        r.push(flag);
    }
    assert(text::views(r@) =~= text::views(args@) + (if verbose {
        seq!["--verbose"@]
    } else {
        seq![]
    }));
    r
}

/// What is said of a start that failed.
pub open spec fn start_failure(args: Seq<Seq<char>>, status: Seq<char>) -> Seq<char> {
    "failed to start `gritty "@ + text::join(args, " "@) + "` (exit "@ + status + ")"@
}

/// What is said of a start that failed.
pub fn auto_start_failure(args: &Vec<String>, status: &str) -> (r: String)
    ensures
        r@ == start_failure(text::views(args@), status@),
{
    let words = join_texts(args, " ");
    cat5("failed to start `gritty ", words.as_str(), "` (exit ", status, ")")
}

/// Where a tunnel of this name leads: the destination that it was made with,
/// else the one that the config implies, else the name itself.
pub open spec fn destination_of(
    name: Seq<char>,
    dest_file: Option<Seq<char>>,
    config_dest: Option<Seq<char>>,
) -> Seq<char> {
    if dest_file is Some && text::trimmed(dest_file->0).len() > 0 {
        text::trimmed(dest_file->0)
    } else {
        match config_dest {
            Some(d) => d,
            None => name,
        }
    }
}

/// Where a tunnel of this name leads.
pub fn resolve_destination(
    name: &str,
    dest_file: Option<&str>,
    config_dest: Option<&str>,
) -> (r: String)
    ensures
        r@ == destination_of(name@, text::str_view(dest_file), text::str_view(config_dest)),
{
    if let Some(contents) = dest_file {
        let t = trim(contents);
        if t.as_str().unicode_len() > 0 {
            return t;
        }
    }
    match config_dest {
        Some(d) => copy(d),
        None => copy(name),
    }
}

/// What to start when no server answers.
pub enum AutoStart {
    /// The socket was given outright: nothing.
    Nothing,
    /// The server on this machine.
    Server,
    /// The tunnel to a host, with the destination that the config implies.
    Tunnel { name: String, config_dest: Option<String> },
}

/// What to start, as a value.
pub enum Start {
    Nothing,
    Server,
    Tunnel { name: Seq<char>, config_dest: Option<Seq<char>> },
}

impl View for AutoStart {
    type V = Start;

    open spec fn view(&self) -> Start {
        match self {
            AutoStart::Nothing => Start::Nothing,
            AutoStart::Server => Start::Server,
            AutoStart::Tunnel { name, config_dest } => Start::Tunnel {
                name: name@,
                config_dest: text::owned_view(*config_dest),
            },
        }
    }
}

/// What to start when no server answers: nothing where the socket was given
/// outright, else what leads to the host.
pub fn auto_start_mode(
    ctl_socket: Option<&str>,
    host: &str,
    config_dest: Option<String>,
) -> (r: AutoStart)
    ensures
        r@ == (if ctl_socket is Some {
            Start::Nothing
        } else if host@ == "local"@ {
            Start::Server
        } else {
            Start::Tunnel { name: host@, config_dest: text::owned_view(config_dest) }
        }),
{
    if ctl_socket.is_some() {
        AutoStart::Nothing
    } else if same(host, "local") {
        AutoStart::Server
    } else {
        AutoStart::Tunnel { name: copy(host), config_dest }
    }
}

/// How many times a server that was started is tried, and how long apart.
pub const START_RETRIES: u32 = 10;

/// Milliseconds between two tries.
pub const RETRY_PAUSE: u64 = 500;

#[derive(Clone, Copy, PartialEq, Eq, Structural)]
pub enum ReachPhase {
    /// The first try.
    First,
    /// Something is being started.
    Starting,
    /// Trying again, and pausing in between.
    Retrying,
    Over,
}

/// Getting a server to answer on a socket.
pub struct Reach {
    pub ctl_path: String,
    pub mode: AutoStart,
    pub wait: bool,
    pub phase: ReachPhase,
    /// Tries that are left.
    pub tries: u32,
    pub auto_started: bool,
}

/// The state of getting an answer, as a value.
pub struct ReachModel {
    pub ctl_path: Seq<char>,
    pub mode: Start,
    pub wait: bool,
    pub phase: ReachPhase,
    pub tries: u32,
    pub auto_started: bool,
}

impl View for Reach {
    type V = ReachModel;

    open spec fn view(&self) -> ReachModel {
        ReachModel {
            ctl_path: self.ctl_path@,
            mode: self.mode@,
            wait: self.wait,
            phase: self.phase,
            tries: self.tries,
            auto_started: self.auto_started,
        }
    }
}

/// What happened.
pub enum ReachEvent {
    Connected,
    Refused,
    Started,
    StartFailed(String),
    Paused,
}

/// What to do next.
pub enum ReachAction {
    /// Say this if there is anything, then try the socket.
    Connect { note: Option<String> },
    /// Say this, then start the server.
    StartServer { say: String },
    /// Say this, then start the tunnel.
    StartTunnel { say: String },
    /// Say this if there is anything, then let time pass.
    Pause { note: Option<String>, ms: u64 },
    Done { auto_started: bool },
    Fail(String),
}

pub open spec fn dim_note(s: Seq<char>) -> Seq<char> {
    "\x1b[2;33m\u{25b8} "@ + s + "\x1b[0m"@
}

fn note(s: &str) -> (r: String)
    ensures
        r@ == dim_note(s@),
{
    cat3("\x1b[2;33m\u{25b8} ", s, "\x1b[0m")
}

/// Where a connection that nothing can be started for ends.
pub open spec fn no_server(ctl_path: Seq<char>) -> Seq<char> {
    "no server running (could not connect to "@ + ctl_path + ")"@
}

/// What is said where no server listens on a socket.
pub fn no_server_text(ctl_path: &str) -> (r: String)
    ensures
        r@ == no_server(ctl_path@),
{
    cat3("no server running (could not connect to ", ctl_path, ")")
}

/// The step from one state to the next, and what to do then.
pub open spec fn reach_effect(
    pre: ReachModel,
    event: ReachEvent,
    post: ReachModel,
    action: ReachAction,
) -> bool {
    match (pre.phase, event) {
        (ReachPhase::First, ReachEvent::Connected) => {
            &&& post == (ReachModel { phase: ReachPhase::Over, ..pre })
            &&& action is Done && !action->auto_started
        },
        (ReachPhase::First, ReachEvent::Refused) => match pre.mode {
            Start::Server => {
                &&& post == (ReachModel { phase: ReachPhase::Starting, auto_started: true, ..pre })
                &&& action is StartServer
                &&& action->StartServer_say@ == dim_note("starting server..."@)
            },
            Start::Tunnel { name, .. } => {
                &&& post == (ReachModel { phase: ReachPhase::Starting, auto_started: true, ..pre })
                &&& action is StartTunnel
                &&& action->StartTunnel_say@ == dim_note("starting tunnel "@ + name + "..."@)
            },
            Start::Nothing => if pre.wait {
                &&& post == (ReachModel { phase: ReachPhase::Retrying, ..pre })
                &&& action is Connect && action->Connect_note is None
            } else {
                &&& post == (ReachModel { phase: ReachPhase::Over, ..pre })
                &&& action is Fail && action->Fail_0@ == no_server(pre.ctl_path)
            },
        },
        (ReachPhase::Starting, ReachEvent::Started) => {
            &&& post == (ReachModel { phase: ReachPhase::Retrying, ..pre })
            &&& action is Connect && action->Connect_note is None
        },
        (ReachPhase::Starting, ReachEvent::StartFailed(e)) => {
            &&& post == (ReachModel { phase: ReachPhase::Retrying, ..pre })
            &&& action is Connect && action->Connect_note is Some
            &&& action->Connect_note->0@ == dim_note(
                "auto-start failed ("@ + e@
                    + "); retrying connect in case another process started one"@,
            )
        },
        (ReachPhase::Retrying, ReachEvent::Connected) => {
            &&& post == (ReachModel { phase: ReachPhase::Over, ..pre })
            &&& action is Done && action->auto_started == pre.auto_started
        },
        (ReachPhase::Retrying, ReachEvent::Refused) => {
            &&& post == (ReachModel {
                tries: if pre.tries == 0 {
                    0
                } else {
                    (pre.tries - 1) as u32
                },
                ..pre
            })
            &&& action is Pause && action->ms == RETRY_PAUSE
            &&& text::owned_view(action->Pause_note) == if pre.wait {
                Some(dim_note("waiting for server..."@))
            } else {
                None
            }
        },
        (ReachPhase::Retrying, ReachEvent::Paused) => if pre.tries == 0 {
            &&& post == (ReachModel { phase: ReachPhase::Over, ..pre })
            &&& action is Fail && action->Fail_0@ == "server did not become ready ("@ + pre.ctl_path
                + ")"@
        } else {
            &&& post == pre
            &&& action is Connect && action->Connect_note is None
        },
        // Nothing else can happen.
        (_, _) => {
            &&& post == (ReachModel { phase: ReachPhase::Over, ..pre })
            &&& action is Fail && action->Fail_0@ == no_server(pre.ctl_path)
        },
    }
}

/// The state before the first try.
pub open spec fn setting_out(ctl_path: Seq<char>, mode: Start, wait: bool) -> ReachModel {
    ReachModel {
        ctl_path,
        mode,
        wait,
        phase: ReachPhase::First,
        tries: if wait {
            u32::MAX
        } else {
            START_RETRIES
        },
        auto_started: false,
    }
}

impl Reach {
    /// Begin: the first thing to do is to try the socket.
    pub fn new(ctl_path: &str, mode: AutoStart, wait: bool) -> (r: Reach)
        ensures
            r@ == setting_out(ctl_path@, mode@, wait),
    {
        Reach {
            ctl_path: copy(ctl_path),
            mode,
            wait,
            phase: ReachPhase::First,
            tries: if wait {
                u32::MAX
            } else {
                START_RETRIES
            },
            auto_started: false,
        }
    }

    fn gave_up(&mut self) -> (r: ReachAction)
        ensures
            final(self)@ == (ReachModel { phase: ReachPhase::Over, ..old(self)@ }),
            r is Fail && r->Fail_0@ == no_server(old(self)@.ctl_path),
    {
        self.phase = ReachPhase::Over;
        ReachAction::Fail(no_server_text(self.ctl_path.as_str()))
    }

    /// Take in what happened.
    pub fn step(&mut self, event: ReachEvent) -> (action: ReachAction)
        ensures
            reach_effect(old(self)@, event, final(self)@, action),
    {
        match self.phase {
            ReachPhase::First => match event {
                ReachEvent::Connected => {
                    self.phase = ReachPhase::Over;
                    ReachAction::Done { auto_started: false }
                },
                ReachEvent::Refused => match &self.mode {
                    AutoStart::Server => {
                        self.phase = ReachPhase::Starting;
                        self.auto_started = true;
                        ReachAction::StartServer { say: note("starting server...") }
                    },
                    AutoStart::Tunnel { name, .. } => {
                        let line = cat3("starting tunnel ", name.as_str(), "...");
                        let say = note(line.as_str());
                        self.phase = ReachPhase::Starting;
                        self.auto_started = true;
                        ReachAction::StartTunnel { say }
                    },
                    AutoStart::Nothing => {
                        if self.wait {
                            self.phase = ReachPhase::Retrying;
                            ReachAction::Connect { note: None }
                        } else {
                            self.gave_up()
                        }
                    },
                },
                _ => self.gave_up(),
            },
            ReachPhase::Starting => match event {
                ReachEvent::Started => {
                    self.phase = ReachPhase::Retrying;
                    ReachAction::Connect { note: None }
                },
                ReachEvent::StartFailed(e) => {
                    self.phase = ReachPhase::Retrying;
                    let line = cat3(
                        "auto-start failed (",
                        e.as_str(),
                        "); retrying connect in case another process started one",
                    );
                    ReachAction::Connect { note: Some(note(line.as_str())) }
                },
                _ => self.gave_up(),
            },
            ReachPhase::Retrying => match event {
                ReachEvent::Connected => {
                    self.phase = ReachPhase::Over;
                    ReachAction::Done { auto_started: self.auto_started }
                },
                ReachEvent::Refused => {
                    self.tries = self.tries.saturating_sub(1);
                    let say = if self.wait {
                        Some(note("waiting for server..."))
                    } else {
                        None
                    };
                    ReachAction::Pause { note: say, ms: RETRY_PAUSE }
                },
                ReachEvent::Paused => {
                    if self.tries == 0 {
                        self.phase = ReachPhase::Over;
                        ReachAction::Fail(
                            cat3("server did not become ready (", self.ctl_path.as_str(), ")"),
                        )
                    } else {
                        ReachAction::Connect { note: None }
                    }
                },
                _ => self.gave_up(),
            },
            ReachPhase::Over => self.gave_up(),
        }
    }
}

/// Trying again costs a try, so that without a wish to wait there are at most
/// as many as at the start; when none is left, the next pause is the last.
pub proof fn law_retries_run_out(
    pre: ReachModel,
    event: ReachEvent,
    post: ReachModel,
    action: ReachAction,
)
    requires
        reach_effect(pre, event, post, action),
    ensures
        post.tries <= pre.tries,
        pre.phase == ReachPhase::Retrying && event is Refused && pre.tries > 0 ==> post.tries
            < pre.tries,
        pre.phase == ReachPhase::Retrying && event is Paused && pre.tries == 0 ==> action is Fail,
{
}

/// Only the first refusal starts anything, and only where something may be
/// started.
pub proof fn law_starts_once(
    pre: ReachModel,
    event: ReachEvent,
    post: ReachModel,
    action: ReachAction,
)
    requires
        reach_effect(pre, event, post, action),
        action is StartServer || action is StartTunnel,
    ensures
        pre.phase == ReachPhase::First,
        event is Refused,
        post.phase != ReachPhase::First,
        pre.mode !is Nothing,
        post.auto_started,
{
}

/// The first try never comes again.
pub proof fn law_first_try_is_over(
    pre: ReachModel,
    event: ReachEvent,
    post: ReachModel,
    action: ReachAction,
)
    requires
        reach_effect(pre, event, post, action),
    ensures
        post.phase != ReachPhase::First,
{
}

/// One step of getting an answer.
pub struct ReachStep {
    pub pre: ReachModel,
    pub event: ReachEvent,
    pub post: ReachModel,
    pub action: ReachAction,
}

/// Whether an event is the answer to what was last to be done; the first thing
/// to do is to try the socket.
pub open spec fn answers_last(run: Seq<ReachStep>, event: ReachEvent) -> bool {
    if run.len() == 0 {
        event is Connected || event is Refused
    } else {
        match run.last().action {
            ReachAction::Connect { .. } => event is Connected || event is Refused,
            ReachAction::StartServer { .. } => event is Started || event is StartFailed,
            ReachAction::StartTunnel { .. } => event is Started || event is StartFailed,
            ReachAction::Pause { .. } => event is Paused,
            ReachAction::Done { .. } => false,
            ReachAction::Fail(_) => false,
        }
    }
}

/// Whether these are the steps from the first try on, in order.
pub open spec fn is_approach(start: ReachModel, run: Seq<ReachStep>) -> bool
    decreases run.len(),
{
    run.len() == 0 || {
        let before = run.drop_last();
        let t = run.last();
        &&& is_approach(start, before)
        &&& reach_effect(t.pre, t.event, t.post, t.action)
        &&& answers_last(before, t.event)
        &&& t.pre == (if before.len() == 0 {
            start
        } else {
            before.last().post
        })
    }
}

/// How often there was a pause.
pub open spec fn pauses(run: Seq<ReachStep>) -> nat
    decreases run.len(),
{
    if run.len() == 0 {
        0
    } else if run.last().action is Pause {
        pauses(run.drop_last()) + 1
    } else {
        pauses(run.drop_last())
    }
}

/// Whether anything was started.
pub open spec fn has_started(run: Seq<ReachStep>) -> bool
    decreases run.len(),
{
    run.len() > 0 && (run.last().action is StartServer || run.last().action is StartTunnel
        || has_started(run.drop_last()))
}

proof fn lemma_approach(ctl_path: Seq<char>, mode: Start, wait: bool, run: Seq<ReachStep>)
    requires
        is_approach(setting_out(ctl_path, mode, wait), run),
        run.len() > 0,
    ensures
        ({
            let m = run.last().post;
            let most = if wait {
                u32::MAX as int
            } else {
                START_RETRIES as int
            };
            &&& m.ctl_path == ctl_path && m.mode == mode && m.wait == wait
            &&& m.auto_started == has_started(run)
            &&& m.tries == (if pauses(run) >= most {
                0
            } else {
                most - pauses(run)
            })
            &&& m.phase == match run.last().action {
                ReachAction::Connect { .. } => ReachPhase::Retrying,
                ReachAction::StartServer { .. } => ReachPhase::Starting,
                ReachAction::StartTunnel { .. } => ReachPhase::Starting,
                ReachAction::Pause { .. } => ReachPhase::Retrying,
                ReachAction::Done { .. } => ReachPhase::Over,
                ReachAction::Fail(_) => ReachPhase::Over,
            }
        }),
    decreases run.len(),
{
    reveal_with_fuel(pauses, 2);
    reveal_with_fuel(has_started, 2);
    if run.len() > 1 {
        lemma_approach(ctl_path, mode, wait, run.drop_last());
    }
}

/// A server that answers is used, and it is said whether anything had to be
/// started for it. One that does not is started where that may be done, or
/// waited for where that was asked; then it is tried again twice a
/// second, ten times, or for as long as it takes where the user waits. A start
/// that failed is no reason to give up.
pub proof fn law_servers_are_reached(
    ctl_path: Seq<char>,
    mode: Start,
    wait: bool,
    run: Seq<ReachStep>,
)
    requires
        is_approach(setting_out(ctl_path, mode, wait), run),
        run.len() > 0,
    ensures
        ({
            let before = run.drop_last();
            let action = run.last().action;
            match run.last().event {
                ReachEvent::Connected => action is Done && action->auto_started == has_started(
                    before,
                ),
                ReachEvent::Refused => if before.len() > 0 {
                    &&& action is Pause && action->ms == 500
                    &&& action->Pause_note is Some <==> wait
                } else {
                    &&& mode is Server ==> action is StartServer
                    &&& mode is Tunnel ==> action is StartTunnel
                    &&& mode is Nothing && wait ==> action is Connect
                    &&& mode is Nothing && !wait ==> action is Fail
                },
                ReachEvent::Started => action is Connect,
                ReachEvent::StartFailed(_) => action is Connect && action->Connect_note is Some,
                ReachEvent::Paused => if !wait && pauses(before) >= 10 {
                    action is Fail
                } else {
                    pauses(before) < u32::MAX ==> action is Connect
                },
            }
        }),
{
    if run.len() > 1 {
        lemma_approach(ctl_path, mode, wait, run.drop_last());
    }
}

/// The words that bring a tunnel back: where it leads, and the ssh options
/// that it was made with.
pub fn tunnel_start_args(
    name: &str,
    dest_file: Option<&str>,
    config_dest: Option<&str>,
    options_file: Option<&str>,
) -> (r: Vec<String>)
    ensures
        text::views(r@) == connect::recreate_words(
            name@,
            destination_of(name@, text::str_view(dest_file), text::str_view(config_dest)),
            match options_file {
                Some(c) => connect::filled_lines(text::lines(c@)),
                None => Seq::<Seq<char>>::empty(),
            },
        ),
{
    let destination = resolve_destination(name, dest_file, config_dest);
    tunnel_recreate_args(name, destination.as_str(), options_file)
}

/// The session number that a target spells, if it spells one.
pub open spec fn numeric_id(target: Seq<char>) -> Option<u32> {
    match text::unsigned(target) {
        Some(n) => if n <= u32::MAX {
            Some(n as u32)
        } else {
            None
        },
        None => None,
    }
}

/// The session number that a target spells: then nobody needs to be asked.
pub fn numeric_target(target: &str) -> (r: Option<u32>)
    ensures
        r == numeric_id(target@),
{
    match parse_unsigned(target, 0xffff_ffff) {
        Some(n) => Some(n as u32),
        None => None,
    }
}

/// Whether `i` is the first session that was last attached to.
pub open spec fn first_last_attached(v: Seq<SessionEntry>, i: int) -> bool {
    &&& 0 <= i < v.len()
    &&& v[i].is_last_attached
    &&& forall|j: int| 0 <= j < i ==> !(#[trigger] v[j]).is_last_attached
}

/// Whether `i` is the session that was heard of last; of several, the last in
/// the list.
pub open spec fn last_heard(v: Seq<SessionEntry>, i: int) -> bool {
    &&& 0 <= i < v.len()
    &&& forall|j: int| 0 <= j < v.len() ==> (#[trigger] v[j]).last_heartbeat <= v[i].last_heartbeat
    &&& forall|j: int| i < j < v.len() ==> (#[trigger] v[j]).last_heartbeat < v[i].last_heartbeat
}

/// Whether `i` is the first session of a name.
pub open spec fn first_named(v: Seq<SessionEntry>, name: Seq<char>, i: int) -> bool {
    &&& 0 <= i < v.len()
    &&& v[i].name@ == name
    &&& forall|j: int| 0 <= j < i ==> (#[trigger] v[j]).name@ != name
}

/// Whether the session `i` is the one that a target means.
pub open spec fn is_meant(v: Seq<SessionEntry>, target: Seq<char>, i: int) -> bool {
    if target == "-"@ {
        first_last_attached(v, i) || ((forall|j: int| 0 <= j < v.len() ==> !(#[trigger] v[j]).is_last_attached)
            && last_heard(v, i))
    } else {
        first_named(v, target, i)
    }
}

/// The number of the session that a target means among those that the server
/// lists: for `-` the one that was attached to last, else the one that was
/// heard of last; otherwise the one of that name.
pub fn session_id_of(target: &str, sessions: &Vec<SessionEntry>) -> (r: Result<u32, String>)
    ensures
        r matches Ok(id) ==> exists|i: int|
            #[trigger] is_meant(sessions@, target@, i) && sessions@[i].id == id,
        r is Err <==> (if target@ == "-"@ {
            sessions@.len() == 0
        } else {
            forall|j: int| 0 <= j < sessions@.len() ==> (#[trigger] sessions@[j]).name@ != target@
        }),
        r matches Err(e) ==> e@ == (if target@ == "-"@ {
            "no sessions (cannot resolve '-')"@
        } else {
            "no such session: "@ + target@
        }),
{
    if same(target, "-") {
        let mut i: usize = 0;
        while i < sessions.len()
            invariant
                i <= sessions@.len(),
                target@ == "-"@,
                forall|j: int| 0 <= j < i ==> !(#[trigger] sessions@[j]).is_last_attached,
            decreases sessions@.len() - i,
        {
            if sessions[i].is_last_attached {
                assert(first_last_attached(sessions@, i as int));
                assert(is_meant(sessions@, target@, i as int));
                return Ok(sessions[i].id);
            }
            i = i + 1;
        }
        if sessions.len() == 0 {
            return Err(copy("no sessions (cannot resolve '-')"));
        }
        let mut best: usize = 0;
        let mut k: usize = 1;
        while k < sessions.len()
            invariant
                best < k <= sessions@.len(),
                forall|j: int|
                    0 <= j < k ==> (#[trigger] sessions@[j]).last_heartbeat
                        <= sessions@[best as int].last_heartbeat,
                forall|j: int|
                    best < j < k ==> (#[trigger] sessions@[j]).last_heartbeat
                        < sessions@[best as int].last_heartbeat,
            decreases sessions@.len() - k,
        {
            if sessions[k].last_heartbeat >= sessions[best].last_heartbeat {
                best = k;
            }
            k = k + 1;
        }
        assert(last_heard(sessions@, best as int));
        assert(is_meant(sessions@, target@, best as int));
        return Ok(sessions[best].id);
    }
    let mut i: usize = 0;
    while i < sessions.len()
        invariant
            i <= sessions@.len(),
            target@ != "-"@,
            forall|j: int| 0 <= j < i ==> (#[trigger] sessions@[j]).name@ != target@,
        decreases sessions@.len() - i,
    {
        if same(sessions[i].name.as_str(), target) {
            assert(is_meant(sessions@, target@, i as int));
            return Ok(sessions[i].id);
        }
        i = i + 1;
    }
    Err(cat2("no such session: ", target))
}

/// A target means at most one of the listed sessions.
pub proof fn law_target_means_one_session(v: Seq<SessionEntry>, target: Seq<char>, i: int, j: int)
    requires
        is_meant(v, target, i),
        is_meant(v, target, j),
    ensures
        i == j,
{
    if i < j {
        assert(v[i].is_last_attached == v[i].is_last_attached);
        assert(v[i].name@ == v[i].name@);
        assert(v[j].last_heartbeat == v[j].last_heartbeat);
    }
    if j < i {
        assert(v[j].is_last_attached == v[j].is_last_attached);
        assert(v[j].name@ == v[j].name@);
        assert(v[i].last_heartbeat == v[i].last_heartbeat);
    }
}

/// What a target means fits it: the session has the name that was asked for,
/// or is the one that was attached to last, or failing that the one that was
/// heard of last.
pub proof fn law_the_meant_session_fits(v: Seq<SessionEntry>, target: Seq<char>, i: int)
    requires
        is_meant(v, target, i),
    ensures
        0 <= i < v.len(),
        target != "-"@ ==> v[i].name@ == target,
        target == "-"@ && (exists|j: int| 0 <= j < v.len() && (#[trigger] v[j]).is_last_attached)
            ==> v[i].is_last_attached,
        target == "-"@ && !v[i].is_last_attached ==> forall|j: int|
            0 <= j < v.len() ==> (#[trigger] v[j]).last_heartbeat <= v[i].last_heartbeat
                && !v[j].is_last_attached,
{
}

/// A target reads as what it was put together from: a host, or a host and a
/// session; a colon with nothing after it names no session.
pub proof fn law_targets_read_back(host: Seq<char>, session: Seq<char>)
    requires
        !host.contains(':'),
    ensures
        target_parts(host) == (host, None::<Seq<char>>),
        target_parts(host + ":"@) == (host, None::<Seq<char>>),
        session.len() > 0 ==> target_parts(host + ":"@ + session) == (host, Some(session)),
{
    reveal_strlit(":");
    let bare = host + ":"@;
    let full = host + ":"@ + session;
    lemma_first_colon(host, seq![]);
    lemma_first_colon(host, session);
    assert(bare =~= host + ":"@ + seq![]);
    assert(bare[host.len() as int] == ':');
    assert(full[host.len() as int] == ':');
    assert(bare.take(host.len() as int) =~= host);
    assert(full.take(host.len() as int) =~= host);
    assert(full.skip(host.len() as int + 1) =~= session);
}

proof fn lemma_first_colon(host: Seq<char>, rest: Seq<char>)
    requires
        !host.contains(':'),
    ensures
        text::first_index(host + ":"@ + rest, ':') == host.len(),
{
    reveal_strlit(":");
    let s = host + ":"@ + rest;
    text::lemma_first_index(s, ':');
    let k = text::first_index(s, ':');
    assert(s[host.len() as int] == ':');
    assert(s.contains(':'));
    if k < host.len() {
        assert(host[k] == s[k]);
        assert(host.contains(host[k]));
    }
}

/// A session's number is read as that number.
pub proof fn law_session_numbers_read_back(id: u32)
    ensures
        numeric_id(text::decimal(id as nat)) == Some(id),
{
    text::law_decimal_round_trip(id as nat);
}

/// A socket that is given outright is the one that is used; otherwise each host
/// has a socket of its own, and none is used without a host.
pub proof fn law_hosts_have_their_own_sockets(
    dir: Seq<char>,
    given: Seq<char>,
    a: Seq<char>,
    b: Seq<char>,
)
    ensures
        ctl_path_of(dir, Some(given), Some(a)) == Some(given),
        ctl_path_of(dir, Some(given), None) == Some(given),
        ctl_path_of(dir, None, None) is None,
        ctl_path_of(dir, None, Some(a)) is Some,
        ctl_path_of(dir, None, Some(a)) == ctl_path_of(dir, None, Some(b)) ==> a == b,
{
    reveal_strlit("ctl.sock");
    reveal_strlit("connect-");
    reveal_strlit(".sock");
    reveal_strlit("/");
    lemma_joined_tail(dir, "ctl.sock"@);
    let fa = "connect-"@ + a + ".sock"@;
    let fb = "connect-"@ + b + ".sock"@;
    lemma_joined_tail(dir, fa);
    lemma_joined_tail(dir, fb);
    if fa == fb {
        assert(fa.len() == fb.len());
        assert(a =~= fa.subrange(8, fa.len() - 5));
        assert(b =~= fb.subrange(8, fb.len() - 5));
    }
    assert(fa[1] == 'o' && fb[1] == 'o' && "ctl.sock"@[1] == 't');
}

proof fn lemma_joined_tail(dir: Seq<char>, file: Seq<char>)
    requires
        file.len() > 0,
        file[0] == 'c',
    ensures
        paths::joined(dir, file) == paths::joined(dir, seq![]) + file,
        paths::joined(dir, file).skip(paths::joined(dir, seq![]).len() as int) == file,
{
    assert(paths::joined(dir, file) =~= paths::joined(dir, seq![]) + file);
    assert((paths::joined(dir, seq![]) + file).skip(paths::joined(dir, seq![]).len() as int)
        =~= file);
}

/// A tunnel leads where it was made to lead, whatever the config says; where
/// that is not known, the config decides, and failing that its name does.
pub proof fn law_recorded_destinations_win(
    name: Seq<char>,
    dest: Seq<char>,
    a: Option<Seq<char>>,
    b: Option<Seq<char>>,
)
    requires
        dest.len() > 0,
        !text::is_space(dest[0]) && !text::is_space(dest.last()),
    ensures
        destination_of(name, Some(dest), a) == dest,
        destination_of(name, Some(dest.push('\n')), b) == dest,
        destination_of(name, None, Some(dest)) == dest,
        destination_of(name, Some(seq![]), Some(dest)) == dest,
        destination_of(name, None, None) == name,
{
    let line = dest.push('\n');
    reveal_with_fuel(text::trim_end, 2);
    assert(text::is_space('\n'));
    assert(line[0] == dest[0]);
    assert(line.drop_last() =~= dest);
    assert(text::trimmed(line) == dest);
    assert(text::trimmed(dest) == dest);
}

/// A server that can be asked.
pub struct DaemonProbe {
    pub host: String,
    pub socket: String,
    /// Where the tunnel leads and how it is, if there is one in between.
    pub tunnel: Option<(String, String)>,
}

/// A server that can be asked, as a value.
pub struct Probe {
    pub host: Seq<char>,
    pub socket: Seq<char>,
    pub tunnel: Option<(Seq<char>, Seq<char>)>,
}

impl View for DaemonProbe {
    type V = Probe;

    open spec fn view(&self) -> Probe {
        Probe {
            host: self.host@,
            socket: self.socket@,
            tunnel: match self.tunnel {
                Some((d, s)) => Some((d@, s@)),
                None => None,
            },
        }
    }
}

pub open spec fn probe_views(v: Seq<DaemonProbe>) -> Seq<Probe> {
    v.map_values(|p: DaemonProbe| p@)
}

/// The hosts that probes were made for.
pub open spec fn probed_hosts(v: Seq<Probe>) -> Seq<Seq<char>> {
    v.map_values(|p: Probe| p.host)
}

/// The probe of the server on this machine, where its socket is there.
pub open spec fn local_probe(dir: Seq<char>, local_exists: bool) -> Seq<Probe> {
    if local_exists {
        seq![Probe { host: "local"@, socket: paths::joined(dir, "ctl.sock"@), tunnel: None }]
    } else {
        seq![]
    }
}

/// The probes of the tunnels, each name once.
pub open spec fn tunnel_probes(dir: Seq<char>, tunnels: Seq<TunnelInfo>) -> Seq<Probe>
    decreases tunnels.len(),
{
    if tunnels.len() == 0 {
        seq![]
    } else {
        let rest = tunnel_probes(dir, tunnels.drop_last());
        let t = tunnels.last();
        if probed_hosts(rest).contains(t.name@) {
            rest
        } else {
            rest.push(
                Probe {
                    host: t.name@,
                    socket: connect::tunnel_file(dir, t.name@, ".sock"@),
                    tunnel: Some((t.destination@, t.status@)),
                },
            )
        }
    }
}

/// The probes of sockets that stand there without a tunnel, after those of
/// `known`.
pub open spec fn bare_probes(dir: Seq<char>, known: Seq<Probe>, files: Seq<Seq<char>>) -> Seq<Probe>
    decreases files.len(),
{
    if files.len() == 0 {
        known
    } else {
        let rest = bare_probes(dir, known, files.drop_last());
        match connect::name_in_file(files.last(), ".sock"@) {
            Some(name) => if probed_hosts(rest).contains(name) {
                rest
            } else {
                rest.push(
                    Probe { host: name, socket: paths::joined(dir, files.last()), tunnel: None },
                )
            },
            None => rest,
        }
    }
}

fn has_host(v: &Vec<DaemonProbe>, from: usize, name: &str) -> (r: bool)
    requires
        from <= v@.len(),
    ensures
        r == probed_hosts(probe_views(v@).skip(from as int)).contains(name@),
{
    let ghost tail = probe_views(v@).skip(from as int);
    let mut i: usize = from;
    while i < v.len()
        invariant
            from <= i <= v@.len(),
            tail == probe_views(v@).skip(from as int),
            forall|k: int| 0 <= k < i - from ==> probed_hosts(tail)[k] != name@,
        decreases v@.len() - i,
    {
        assert(probed_hosts(tail)[i - from] == v@[i as int].host@);
        if same(v[i].host.as_str(), name) {
            return true;
        }
        i = i + 1;
    }
    false
}

/// Every server that can be asked: the local one, the tunnels, and sockets
/// without a tunnel. `files` are the names of the files in the socket
/// directory.
pub fn discover_daemon_probes(
    socket_dir: &str,
    local_exists: bool,
    tunnels: &Vec<TunnelInfo>,
    files: &Vec<String>,
) -> (r: Vec<DaemonProbe>)
    ensures
        probe_views(r@) == local_probe(socket_dir@, local_exists) + bare_probes(
            socket_dir@,
            tunnel_probes(socket_dir@, tunnels@),
            text::views(files@),
        ),
{
    let mut r: Vec<DaemonProbe> = Vec::new();
    if local_exists {
        r.push(
            DaemonProbe {
                host: copy("local"),
                socket: join_path(socket_dir, "ctl.sock"),
                tunnel: None,
            },
        );
    }
    let from: usize = r.len();
    let ghost local = local_probe(socket_dir@, local_exists);
    assert(probe_views(r@) == local);
    let mut i: usize = 0;
    assert(tunnels@.take(0) == Seq::<TunnelInfo>::empty());
    assert(probe_views(r@) == local + tunnel_probes(socket_dir@, tunnels@.take(0)));
    while i < tunnels.len()
        invariant
            i <= tunnels@.len(),
            from == local.len(),
            probe_views(r@) == local + tunnel_probes(socket_dir@, tunnels@.take(i as int)),
        decreases tunnels@.len() - i,
    {
        let ghost done = tunnel_probes(socket_dir@, tunnels@.take(i as int));
        proof {
            assert(tunnels@.take(i + 1).drop_last() == tunnels@.take(i as int));
            assert(tunnels@.take(i + 1).last() == tunnels@[i as int]);
            assert((local + done).skip(from as int) == done);
        }
        if !has_host(&r, from, tunnels[i].name.as_str()) {
            let ghost before = r@;
            let p = DaemonProbe {
                host: copy(tunnels[i].name.as_str()),
                socket: connection_socket_path(socket_dir, tunnels[i].name.as_str()),
                tunnel: Some(
                    (copy(tunnels[i].destination.as_str()), copy(tunnels[i].status.as_str())),
                ),
            };
            let ghost pv = p@;
            r.push(p);
            assert(probe_views(r@) == probe_views(before).push(pv));
            assert((local + done).push(pv) == local + done.push(pv));
        }
        i = i + 1;
    }
    assert(tunnels@.take(i as int) == tunnels@);
    let ghost known = tunnel_probes(socket_dir@, tunnels@);
    let ghost names = text::views(files@);
    let mut k: usize = 0;
    assert(names.take(0) == Seq::<Seq<char>>::empty());
    while k < files.len()
        invariant
            k <= files@.len(),
            from == local.len(),
            names == text::views(files@),
            probe_views(r@) == local + bare_probes(socket_dir@, known, names.take(k as int)),
        decreases files@.len() - k,
    {
        let ghost done = bare_probes(socket_dir@, known, names.take(k as int));
        proof {
            assert(names.take(k + 1).drop_last() == names.take(k as int));
            assert(names.take(k + 1).last() == files@[k as int]@);
            assert((local + done).skip(from as int) == done);
        }
        if let Some(name) = connect::name_of_file(files[k].as_str(), ".sock") {
            if !has_host(&r, from, name.as_str()) {
                let ghost before = r@;
                let p = DaemonProbe {
                    host: name,
                    socket: join_path(socket_dir, files[k].as_str()),
                    tunnel: None,
                };
                let ghost pv = p@;
                r.push(p);
                assert(probe_views(r@) == probe_views(before).push(pv));
                assert((local + done).push(pv) == local + done.push(pv));
            }
        }
        k = k + 1;
    }
    assert(names.take(k as int) == names);
    r
}

proof fn lemma_tunnel_is_probed(dir: Seq<char>, tunnels: Seq<TunnelInfo>, i: int)
    requires
        0 <= i < tunnels.len(),
    ensures
        probed_hosts(tunnel_probes(dir, tunnels)).contains(tunnels[i].name@),
    decreases tunnels.len(),
{
    let rest = tunnel_probes(dir, tunnels.drop_last());
    let all = tunnel_probes(dir, tunnels);
    let n = tunnels[i].name@;
    if i < tunnels.len() - 1 {
        assert(tunnels.drop_last()[i] == tunnels[i]);
        lemma_tunnel_is_probed(dir, tunnels.drop_last(), i);
        let k = choose|k: int| 0 <= k < probed_hosts(rest).len() && probed_hosts(rest)[k] == n;
        assert(probed_hosts(all)[k] == n);
    } else if !probed_hosts(rest).contains(n) {
        assert(probed_hosts(all)[all.len() - 1] == n);
    }
}

proof fn lemma_known_stay(dir: Seq<char>, known: Seq<Probe>, files: Seq<Seq<char>>)
    ensures
        known.is_prefix_of(bare_probes(dir, known, files)),
    decreases files.len(),
{
    if files.len() > 0 {
        lemma_known_stay(dir, known, files.drop_last());
        let before = bare_probes(dir, known, files.drop_last());
        let now = bare_probes(dir, known, files);
        assert(before.subrange(0, known.len() as int) == known);
        assert(now.subrange(0, known.len() as int) =~= known);
    } else {
        assert(known.subrange(0, known.len() as int) =~= known);
    }
}

proof fn lemma_socket_is_probed(dir: Seq<char>, known: Seq<Probe>, files: Seq<Seq<char>>, i: int)
    requires
        0 <= i < files.len(),
        connect::name_in_file(files[i], ".sock"@) is Some,
    ensures
        probed_hosts(bare_probes(dir, known, files)).contains(
            connect::name_in_file(files[i], ".sock"@)->0,
        ),
    decreases files.len(),
{
    let rest = bare_probes(dir, known, files.drop_last());
    let all = bare_probes(dir, known, files);
    let n = connect::name_in_file(files[i], ".sock"@)->0;
    if i < files.len() - 1 {
        assert(files.drop_last()[i] == files[i]);
        lemma_socket_is_probed(dir, known, files.drop_last(), i);
        let k = choose|k: int| 0 <= k < probed_hosts(rest).len() && probed_hosts(rest)[k] == n;
        assert(probed_hosts(all)[k] == n);
    } else if !probed_hosts(rest).contains(n) {
        assert(probed_hosts(all)[all.len() - 1] == n);
    }
}

/// Every tunnel is asked, and every socket that stands there without one.
pub proof fn law_every_server_is_asked(
    dir: Seq<char>,
    tunnels: Seq<TunnelInfo>,
    files: Seq<Seq<char>>,
    i: int,
    j: int,
)
    requires
        0 <= i < tunnels.len(),
        0 <= j < files.len(),
    ensures
        ({
            let asked = probed_hosts(bare_probes(dir, tunnel_probes(dir, tunnels), files));
            &&& asked.contains(tunnels[i].name@)
            &&& connect::name_in_file(files[j], ".sock"@) matches Some(n) ==> asked.contains(n)
        }),
{
    let known = tunnel_probes(dir, tunnels);
    let all = bare_probes(dir, known, files);
    lemma_tunnel_is_probed(dir, tunnels, i);
    lemma_known_stay(dir, known, files);
    let n = tunnels[i].name@;
    let k = choose|k: int| 0 <= k < probed_hosts(known).len() && probed_hosts(known)[k] == n;
    assert(all.subrange(0, known.len() as int)[k] == known[k]);
    assert(probed_hosts(all)[k] == n);
    if connect::name_in_file(files[j], ".sock"@) is Some {
        lemma_socket_is_probed(dir, known, files, j);
    }
}

} // verus!
