//! `kill-session` and `restart`: what the arguments mean, and the steps that
//! they take.

use vstd::prelude::*;
use crate::attach;
use crate::attach::{good_note, ServerReply};
use crate::config;
use crate::config::{holds, ConfigFile};
use crate::connect;
use crate::naming;
use crate::naming::resolve_session_name;
use crate::protocol::ErrorCode;
use crate::target;
use crate::target::{numeric_target, parse_target, resolve_ctl_path, server_auto_start_args, tunnel_start_args};
use crate::text;
use crate::text::{cat2, cat3, cat4, cat5, copy, decimal_text, has_char, same};

verus! {

/// What an argument of `kill-session` means: a session to kill on a host, or
/// only a host.
#[derive(Debug, PartialEq, Eq)]
pub enum KillTarget {
    Session { host: String, session: String },
    HostOnly(String),
}

/// The meaning of an argument, as a value.
pub enum Kill {
    Session { host: Seq<char>, session: Seq<char> },
    HostOnly(Seq<char>),
}

impl View for KillTarget {
    type V = Kill;

    open spec fn view(&self) -> Kill {
        match self {
            KillTarget::Session { host, session } => Kill::Session {
                host: host@,
                session: session@,
            },
            KillTarget::HostOnly(host) => Kill::HostOnly(host@),
        }
    }
}

/// Whether a word without a colon names a host: the local one, a tunnel, or
/// another name of one.
pub open spec fn names_a_host(c: ConfigFile, word: Seq<char>, tunnels: Seq<Seq<char>>) -> bool {
    config::canonical(c, word) != word || word == "local"@ || tunnels.contains(word)
}

/// What an argument of `kill-session` means. A word that names no host is a
/// session on the local one.
pub open spec fn kill_meaning(c: ConfigFile, t: Seq<char>, tunnels: Seq<Seq<char>>) -> Kill {
    if t.contains(':') {
        let (host, session) = target::aimed_at(c, t);
        match session {
            Some(session) => Kill::Session { host, session },
            None => Kill::HostOnly(host),
        }
    } else if names_a_host(c, t, tunnels) {
        Kill::HostOnly(config::canonical(c, t))
    } else {
        Kill::Session { host: "local"@, session: t }
    }
}

/// What an argument of `kill-session` means, given the tunnels that exist.
pub fn parse_kill_target(
    config: &ConfigFile,
    target: &str,
    known_tunnels: &Vec<String>,
) -> (r: KillTarget)
    ensures
        r@ == kill_meaning(*config, target@, text::views(known_tunnels@)),
{
    if has_char(target, ':') {
        let (host, session) = parse_target(config, target);
        return match session {
            Some(session) => KillTarget::Session { host, session },
            None => KillTarget::HostOnly(host),
        };
    }
    let host = config.canonical_host_quiet(target);
    if !same(host.as_str(), target) || same(target, "local") || holds(known_tunnels, target) {
        return KillTarget::HostOnly(host);
    }
    KillTarget::Session { host: copy("local"), session: copy(target) }
}

/// How one argument is carried out.
pub enum KillPlan {
    /// Kill the session of this full name on the server behind the socket.
    Kill { ctl_path: String, client: String, session: String, wire: String },
    /// Kill nothing: list the sessions of the host.
    Suggest { ctl_path: String, client: String, host: String },
}

/// The client name on a host, for a machine with its own.
pub open spec fn client_on(c: ConfigFile, host: Seq<char>, own: Seq<char>) -> Seq<char> {
    config::most_specific(
        config::set_client_name(config::overrides(c, Some(host)), c.defaults),
        None,
        own,
    )
}

/// Whether this is how one argument is carried out, on a machine with the client
/// name `own`.
pub open spec fn is_kill_plan(
    c: ConfigFile,
    own: Seq<char>,
    socket_dir: Seq<char>,
    ctl_socket: Option<Seq<char>>,
    t: Seq<char>,
    tunnels: Seq<Seq<char>>,
    r: KillPlan,
) -> bool {
    match kill_meaning(c, t, tunnels) {
        Kill::Session { host, session } => {
            let client = client_on(c, host, own);
            &&& r is Kill
            &&& Some(r->Kill_ctl_path@) == target::ctl_path_of(socket_dir, ctl_socket, Some(host))
            &&& r->Kill_client@ == client
            &&& r->session@ == session
            &&& r->wire@ == naming::full_name(session, client)
        },
        Kill::HostOnly(host) => {
            &&& r is Suggest
            &&& Some(r->Suggest_ctl_path@) == target::ctl_path_of(
                socket_dir,
                ctl_socket,
                Some(host),
            )
            &&& r->Suggest_client@ == client_on(c, host, own)
            &&& r->Suggest_host@ == host
        },
    }
}

/// The session that is killed is the one that was named, on the host that was
/// named; where only a host was named, its sessions are shown and none is
/// killed.
pub proof fn law_only_named_sessions_are_killed(
    c: ConfigFile,
    own: Seq<char>,
    socket_dir: Seq<char>,
    host: Seq<char>,
    session: Seq<char>,
    tunnels: Seq<Seq<char>>,
    named: bool,
    r: KillPlan,
)
    requires
        !host.contains(':'),
        session.contains('/'),
        is_kill_plan(
            c,
            own,
            socket_dir,
            None,
            if named {
                host + ":"@ + session
            } else {
                host + ":"@
            },
            tunnels,
            r,
        ),
    ensures
        named <==> r is Kill,
        named ==> r->wire@ == session && r->session@ == session && Some(r->Kill_ctl_path@)
            == target::ctl_path_of(socket_dir, None, Some(config::canonical(c, host))),
        !named ==> r->Suggest_host@ == config::canonical(c, host),
{
    law_hosts_are_never_killed(c, host, session, tunnels);
}

/// Plan one argument, on a machine with the client name `own`.
pub fn plan_kill(
    config: &ConfigFile,
    own: &str,
    socket_dir: &str,
    ctl_socket: Option<String>,
    target: &str,
    known_tunnels: &Vec<String>,
) -> (r: KillPlan)
    ensures
        is_kill_plan(
            *config,
            own@,
            socket_dir@,
            text::owned_view(ctl_socket),
            target@,
            text::views(known_tunnels@),
            r,
        ),
{
    match parse_kill_target(config, target, known_tunnels) {
        KillTarget::Session { host, session } => {
            let (settings, _) = config.resolve_session_for(Some(host.as_str()), own);
            let client = settings.client_name;
            let ctl_path = socket_of(socket_dir, ctl_socket, host.as_str());
            let wire = resolve_session_name(session.as_str(), client.as_str());
            KillPlan::Kill { ctl_path, client, session, wire }
        },
        KillTarget::HostOnly(host) => {
            let (settings, _) = config.resolve_session_for(Some(host.as_str()), own);
            let ctl_path = socket_of(socket_dir, ctl_socket, host.as_str());
            KillPlan::Suggest { ctl_path, client: settings.client_name, host }
        },
    }
}

fn socket_of(socket_dir: &str, ctl_socket: Option<String>, host: &str) -> (r: String)
    ensures
        Some(r@) == target::ctl_path_of(socket_dir@, text::owned_view(ctl_socket), Some(host@)),
{
    match resolve_ctl_path(socket_dir, ctl_socket, Some(host)) {
        Ok(p) => p,
        Err(e) => {
            proof {
                assert(false);
            }
            e
        },
    }
}

/// Whether to try again with what the user typed, after the full name did not
/// exist: a number is also the number of a session.
pub open spec fn tries_number(
    user: Seq<char>,
    client: Seq<char>,
    reply: ServerReply,
) -> bool {
    &&& reply is Failed
    &&& reply->code == ErrorCode::NoSuchSession
    &&& naming::full_name(user, client) != user
    &&& target::numeric_id(user) is Some
}

/// The session to ask for next, after the server's answer to the first
/// request.
pub fn kill_again(user_session: &str, client_name: &str, reply: &ServerReply) -> (r: Option<String>)
    ensures
        text::owned_view(r) == if tries_number(user_session@, client_name@, *reply) {
            Some(user_session@)
        } else {
            None
        },
{
    let missing = match reply {
        ServerReply::Failed { code, .. } => *code == ErrorCode::NoSuchSession,
        _ => false,
    };
    if !missing {
        return None;
    }
    let wire = resolve_session_name(user_session, client_name);
    if !same(wire.as_str(), user_session) && numeric_target(user_session).is_some() {
        Some(copy(user_session))
    } else {
        None
    }
}

/// How one argument ended, and what is said of it.
pub open spec fn noted(
    before: u64,
    target: Seq<char>,
    result: Result<String, String>,
    after: u64,
    said: Seq<char>,
) -> bool {
    match result {
        Ok(s) => after == before && said == s@,
        Err(e) => after == before + 1 && said == "error: "@ + target + ": "@ + e@,
    }
}

/// A run over several arguments.
pub struct KillRun {
    pub failed: u64,
}

impl KillRun {
    pub fn new() -> (r: KillRun)
        ensures
            r.failed == 0,
    {
        KillRun { failed: 0 }
    }

    /// Take in how one argument ended, and what to say of it. A failure does
    /// not stop the others.
    pub fn note(&mut self, target: &str, result: Result<String, String>) -> (r: String)
        requires
            old(self).failed < u64::MAX,
        ensures
            noted(old(self).failed, target@, result, final(self).failed, r@),
    {
        match result {
            Ok(s) => s,
            Err(e) => {
                self.failed = self.failed + 1;
                cat4("error: ", target, ": ", e.as_str())
            },
        }
    }

    /// How the whole run ended.
    pub fn finish(&self, total: usize) -> (r: Result<(), String>)
        ensures
            r is Ok <==> self.failed == 0,
            r matches Err(e) ==> e@ == "failed to kill "@ + text::decimal(self.failed as nat)
                + " of "@ + text::decimal(total as nat) + " session(s)"@,
    {
        if self.failed > 0 {
            let a = decimal_text(self.failed);
            let b = decimal_text(total as u64);
            return Err(cat5("failed to kill ", a.as_str(), " of ", b.as_str(), " session(s)"));
        }
        Ok(())
    }
}

/// What is said of the request to end before a restart, which goes on in any
/// case.
pub open spec fn restart_kill_note(reply: Option<ServerReply>, shown: Seq<char>) -> Seq<char> {
    match reply {
        Some(ServerReply::Granted) => attach::green_note("server killed"@),
        Some(ServerReply::Failed { message, .. }) => target::dim_note(
            "kill-server: "@ + message@ + " (continuing)"@,
        ),
        Some(_) => target::dim_note(
            "kill-server: unexpected response "@ + shown + " (continuing)"@,
        ),
        None => target::dim_note("no server running"@),
    }
}

fn dim(s: &str) -> (r: String)
    ensures
        r@ == target::dim_note(s@),
{
    cat3("\x1b[2;33m\u{25b8} ", s, "\x1b[0m")
}

#[derive(Clone, Copy, PartialEq, Eq, Structural)]
pub enum RestartPhase {
    /// The server is asked to end.
    Killing,
    /// What the tunnel was made with is read.
    Recalling,
    /// The tunnel is taken down.
    Stopping,
    /// The server or the tunnel is started.
    Starting,
    Over,
}

/// A restart of the server on a host, with the tunnel to it where there is
/// one.
pub struct Restart {
    pub host: String,
    pub ctl_socket: Option<String>,
    pub config_dest: Option<String>,
    pub phase: RestartPhase,
    /// The words that start the server or the tunnel, once they are known.
    pub args: Vec<String>,
}

/// The state of a restart, as a value.
pub struct RestartModel {
    pub host: Seq<char>,
    pub ctl_socket: Option<Seq<char>>,
    pub config_dest: Option<Seq<char>>,
    pub phase: RestartPhase,
    pub args: Seq<Seq<char>>,
}

impl View for Restart {
    type V = RestartModel;

    open spec fn view(&self) -> RestartModel {
        RestartModel {
            host: self.host@,
            ctl_socket: text::owned_view(self.ctl_socket),
            config_dest: text::owned_view(self.config_dest),
            phase: self.phase,
            args: text::views(self.args@),
        }
    }
}

/// What happened.
pub enum RestartEvent {
    /// The server's reply, if it was reached, and the same as it is shown.
    Killed { reply: Option<ServerReply>, shown: String },
    /// The files that record where the tunnel leads and with which options.
    Recalled { dest_file: Option<String>, options_file: Option<String> },
    Stopped(Result<(), String>),
    Started(Result<(), String>),
}

/// What to do next.
pub enum RestartAction {
    /// Say this, then read the files of the tunnel.
    Recall { say: String },
    /// Take the tunnel down, which removes its files.
    Stop,
    /// Say these lines, then start with these words.
    Start { lines: Vec<String>, args: Vec<String> },
    /// Say this and be done.
    Done { say: String },
    Fail(String),
}

/// The step from one state to the next, and what to do then.
pub open spec fn restart_effect(
    pre: RestartModel,
    event: RestartEvent,
    post: RestartModel,
    a: RestartAction,
) -> bool {
    match (pre.phase, event) {
        (RestartPhase::Killing, RestartEvent::Killed { reply, shown }) => {
            let note = restart_kill_note(reply, shown@);
            if pre.host == "local"@ {
                let words = target::server_words(pre.ctl_socket);
                &&& post == (RestartModel { phase: RestartPhase::Starting, args: words, ..pre })
                &&& a is Start && text::views(a->args@) == words
                &&& text::views(a->lines@) == seq![
                    note,
                    target::dim_note("starting server..."@),
                ]
            } else {
                &&& post == (RestartModel { phase: RestartPhase::Recalling, ..pre })
                &&& a is Recall && a->Recall_say@ == note
            }
        },
        (RestartPhase::Recalling, RestartEvent::Recalled { dest_file, options_file }) => {
            let words = connect::recreate_words(
                pre.host,
                target::destination_of(pre.host, text::owned_view(dest_file), pre.config_dest),
                match options_file {
                    Some(c) => connect::filled_lines(text::lines(c@)),
                    None => Seq::<Seq<char>>::empty(),
                },
            );
            &&& post == (RestartModel { phase: RestartPhase::Stopping, args: words, ..pre })
            &&& a is Stop
        },
        (RestartPhase::Stopping, RestartEvent::Stopped(r)) => match r {
            Ok(_) => {
                &&& post == (RestartModel { phase: RestartPhase::Starting, ..pre })
                &&& a is Start && text::views(a->args@) == pre.args
                &&& text::views(a->lines@) == seq![
                    target::dim_note("starting tunnel "@ + pre.host + "..."@),
                ]
            },
            Err(e) => {
                &&& post == (RestartModel { phase: RestartPhase::Over, ..pre })
                &&& a is Fail && a->Fail_0@ == e@
            },
        },
        (RestartPhase::Starting, RestartEvent::Started(r)) => {
            &&& post == (RestartModel { phase: RestartPhase::Over, ..pre })
            &&& match r {
                Ok(_) => a is Done && a->Done_say@ == attach::green_note(
                    (if pre.host == "local"@ {
                        "server"@
                    } else {
                        pre.host
                    }) + " restarted"@,
                ),
                Err(e) => a is Fail && a->Fail_0@ == e@,
            }
        },
        // Nothing else can happen.
        (_, _) => {
            &&& post == (RestartModel { phase: RestartPhase::Over, ..pre })
            &&& a is Fail && a->Fail_0@ == "restart failed"@
        },
    }
}

/// The state before the server is asked to end.
pub open spec fn restarting(
    host: Option<Seq<char>>,
    ctl_socket: Option<Seq<char>>,
    config_dest: Option<Seq<char>>,
) -> RestartModel {
    RestartModel {
        host: match host {
            Some(h) => h,
            None => "local"@,
        },
        ctl_socket,
        config_dest,
        phase: RestartPhase::Killing,
        args: Seq::empty(),
    }
}

impl Restart {
    /// Begin: the first thing to do is to ask the server to end. Without a
    /// host it is the local one.
    pub fn new(
        host: Option<String>,
        ctl_socket: Option<String>,
        config_dest: Option<String>,
    ) -> (r: Restart)
        ensures
            r@ == restarting(
                text::owned_view(host),
                text::owned_view(ctl_socket),
                text::owned_view(config_dest),
            ),
    {
        let host = match host {
            Some(h) => h,
            None => copy("local"),
        };
        let args: Vec<String> = Vec::new();
        assert(text::views(args@) == Seq::<Seq<char>>::empty());
        Restart { host, ctl_socket, config_dest, phase: RestartPhase::Killing, args }
    }

    fn fail(&mut self, s: String) -> (a: RestartAction)
        ensures
            final(self)@ == (RestartModel { phase: RestartPhase::Over, ..old(self)@ }),
            a is Fail && a->Fail_0@ == s@,
    {
        self.phase = RestartPhase::Over;
        RestartAction::Fail(s)
    }

    /// Take in what happened.
    pub fn step(&mut self, event: RestartEvent) -> (a: RestartAction)
        ensures
            restart_effect(old(self)@, event, final(self)@, a),
    {
        match self.phase {
            RestartPhase::Killing => match event {
                RestartEvent::Killed { reply, shown } => {
                    let note = match reply {
                        Some(ServerReply::Granted) => good_note("server killed"),
                        Some(ServerReply::Failed { message, .. }) => dim(
                            cat3("kill-server: ", message.as_str(), " (continuing)").as_str(),
                        ),
                        Some(_) => dim(
                            cat3(
                                "kill-server: unexpected response ",
                                shown.as_str(),
                                " (continuing)",
                            ).as_str(),
                        ),
                        None => dim("no server running"),
                    };
                    if same(self.host.as_str(), "local") {
                        let words = match &self.ctl_socket {
                            Some(s) => server_auto_start_args(Some(s.as_str())),
                            None => server_auto_start_args(None),
                        };
                        self.args = text::copy_all(&words);
                        self.phase = RestartPhase::Starting;
                        let say = vec![note, dim("starting server...")];
                        assert(text::views(say@) =~= seq![
                            note@,
                            target::dim_note("starting server..."@),
                        ]);
                        RestartAction::Start { lines: say, args: words }
                    } else {
                        self.phase = RestartPhase::Recalling;
                        RestartAction::Recall { say: note }
                    }
                },
                _ => self.fail(copy("restart failed")),
            },
            RestartPhase::Recalling => match event {
                RestartEvent::Recalled { dest_file, options_file } => {
                    let dest = match &dest_file {
                        Some(s) => Some(s.as_str()),
                        None => None,
                    };
                    let opts = match &options_file {
                        Some(s) => Some(s.as_str()),
                        None => None,
                    };
                    let implied = match &self.config_dest {
                        Some(s) => Some(s.as_str()),
                        None => None,
                    };
                    self.args = tunnel_start_args(self.host.as_str(), dest, implied, opts);
                    self.phase = RestartPhase::Stopping;
                    RestartAction::Stop
                },
                _ => self.fail(copy("restart failed")),
            },
            RestartPhase::Stopping => match event {
                RestartEvent::Stopped(r) => match r {
                    Ok(_) => {
                        self.phase = RestartPhase::Starting;
                        let line = cat3("starting tunnel ", self.host.as_str(), "...");
                        let say = vec![dim(line.as_str())];
                        assert(text::views(say@) =~= seq![target::dim_note(line@)]);
                        RestartAction::Start { lines: say, args: text::copy_all(&self.args) }
                    },
                    Err(e) => self.fail(e),
                },
                _ => self.fail(copy("restart failed")),
            },
            RestartPhase::Starting => match event {
                RestartEvent::Started(r) => match r {
                    Ok(_) => {
                        self.phase = RestartPhase::Over;
                        let line = if same(self.host.as_str(), "local") {
                            cat2("server", " restarted")
                        } else {
                            cat2(self.host.as_str(), " restarted")
                        };
                        RestartAction::Done { say: good_note(line.as_str()) }
                    },
                    Err(e) => self.fail(e),
                },
                _ => self.fail(copy("restart failed")),
            },
            RestartPhase::Over => self.fail(copy("restart failed")),
        }
    }
}

/// What a tunnel was made with is read before the tunnel is taken down, and is
/// what it is started with again.
pub proof fn law_restart_recalls_first(
    before: RestartModel,
    e1: RestartEvent,
    between: RestartModel,
    a1: RestartAction,
    e2: RestartEvent,
    after: RestartModel,
    a2: RestartAction,
)
    requires
        restart_effect(before, e1, between, a1),
        restart_effect(between, e2, after, a2),
        a1 is Stop,
        a2 is Start,
    ensures
        before.phase == RestartPhase::Recalling,
        e1 is Recalled,
        text::views(a2->args@) == between.args,
        e2 is Stopped && e2->Stopped_0 is Ok,
{
}

/// A restart goes on whatever the server says to the request to end.
pub proof fn law_restart_goes_on(
    pre: RestartModel,
    event: RestartEvent,
    post: RestartModel,
    a: RestartAction,
)
    requires
        restart_effect(pre, event, post, a),
        pre.phase == RestartPhase::Killing,
        event is Killed,
    ensures
        a !is Fail,
        post.phase != RestartPhase::Over,
{
}

/// One step of a restart.
pub struct RestartStep {
    pub pre: RestartModel,
    pub event: RestartEvent,
    pub post: RestartModel,
    pub action: RestartAction,
}

/// Whether these are the steps of a restart, each the outcome of what was last
/// to be done; the first thing to do is to ask the server to end.
pub open spec fn is_restart(start: RestartModel, run: Seq<RestartStep>) -> bool
    decreases run.len(),
{
    run.len() == 0 || {
        let before = run.drop_last();
        let t = run.last();
        &&& is_restart(start, before)
        &&& restart_effect(t.pre, t.event, t.post, t.action)
        &&& if before.len() == 0 {
            t.pre == start && t.event is Killed
        } else {
            &&& t.pre == before.last().post
            &&& match before.last().action {
                RestartAction::Recall { .. } => t.event is Recalled,
                RestartAction::Stop => t.event is Stopped,
                RestartAction::Start { .. } => t.event is Started,
                _ => false,
            }
        }
    }
}

/// The words that bring back a tunnel as it is recorded.
pub open spec fn recorded_words(
    host: Seq<char>,
    config_dest: Option<Seq<char>>,
    recalled: RestartEvent,
) -> Seq<Seq<char>> {
    connect::recreate_words(
        host,
        target::destination_of(host, text::owned_view(recalled->dest_file), config_dest),
        match recalled->options_file {
            Some(c) => connect::filled_lines(text::lines(c@)),
            None => Seq::<Seq<char>>::empty(),
        },
    )
}

proof fn lemma_restart(start: RestartModel, run: Seq<RestartStep>)
    requires
        is_restart(start, run),
        run.len() > 0,
        start.phase is Killing,
    ensures
        ({
            let m = run.last().post;
            &&& m.host == start.host && m.config_dest == start.config_dest && m.ctl_socket
                == start.ctl_socket
            &&& match run.last().action {
                RestartAction::Recall { .. } => m.phase is Recalling,
                RestartAction::Stop => m.phase is Stopping && run.last().event is Recalled && m.args
                    == recorded_words(start.host, start.config_dest, run.last().event),
                RestartAction::Start { .. } => m.phase is Starting,
                _ => m.phase is Over,
            }
        }),
    decreases run.len(),
{
    if run.len() > 1 {
        lemma_restart(start, run.drop_last());
    }
}

/// A restart ends with the server, or the tunnel to it, started anew. The local
/// server is started right after it was asked to end; a tunnel is taken down
/// first, and started with what was recorded of it before. What the server
/// said to the request to end stops nothing.
pub proof fn law_restarts_bring_it_back(
    host: Option<Seq<char>>,
    ctl_socket: Option<Seq<char>>,
    config_dest: Option<Seq<char>>,
    run: Seq<RestartStep>,
)
    requires
        is_restart(restarting(host, ctl_socket, config_dest), run),
        run.len() > 0,
    ensures
        ({
            let before = run.drop_last();
            let a = run.last().action;
            let here = host is None || host == Some("local"@);
            match run.last().event {
                RestartEvent::Killed { .. } => if here {
                    a is Start && text::views(a->args@) == target::server_words(ctl_socket)
                } else {
                    a is Recall
                },
                RestartEvent::Recalled { .. } => !here && a is Stop,
                RestartEvent::Stopped(Ok(_)) => a is Start && text::views(a->args@)
                    == recorded_words(host->0, config_dest, before.last().event),
                RestartEvent::Stopped(Err(e)) => a is Fail && a->Fail_0@ == e@,
                RestartEvent::Started(Ok(_)) => a is Done,
                RestartEvent::Started(Err(e)) => a is Fail && a->Fail_0@ == e@,
            }
        }),
{
    let start = restarting(host, ctl_socket, config_dest);
    if run.len() > 1 {
        lemma_restart(start, run.drop_last());
        lemma_only_tunnels_are_recalled(start, run.drop_last());
    }
}

proof fn lemma_only_tunnels_are_recalled(start: RestartModel, run: Seq<RestartStep>)
    requires
        is_restart(start, run),
        run.len() > 0,
        start.phase is Killing,
    ensures
        run.last().action is Recall || run.last().action is Stop ==> start.host != "local"@,
    decreases run.len(),
{
    if run.len() > 1 {
        lemma_restart(start, run.drop_last());
        lemma_only_tunnels_are_recalled(start, run.drop_last());
    }
}

/// How many of some arguments failed.
pub open spec fn failures(results: Seq<Result<String, String>>) -> nat
    decreases results.len(),
{
    if results.len() == 0 {
        0
    } else {
        failures(results.drop_last()) + if results.last() is Err {
            1nat
        } else {
            0nat
        }
    }
}

/// Whether a run over some arguments counted like this: from nothing, one
/// argument after the other.
pub open spec fn is_count(
    targets: Seq<Seq<char>>,
    results: Seq<Result<String, String>>,
    counts: Seq<u64>,
    said: Seq<Seq<char>>,
) -> bool {
    &&& targets.len() == results.len() == said.len()
    &&& counts.len() == results.len() + 1
    &&& counts[0] == 0
    &&& forall|i: int|
        0 <= i < results.len() ==> noted(
            counts[i],
            targets[i],
            #[trigger] results[i],
            counts[i + 1],
            said[i],
        )
}

/// Every argument that failed counts, and none that did not; each is spoken
/// of.
pub proof fn law_every_failure_counts(
    targets: Seq<Seq<char>>,
    results: Seq<Result<String, String>>,
    counts: Seq<u64>,
    said: Seq<Seq<char>>,
)
    requires
        is_count(targets, results, counts, said),
    ensures
        counts.last() == failures(results),
        forall|i: int|
            0 <= i < results.len() ==> match #[trigger] results[i] {
                Ok(s) => said[i] == s@,
                Err(e) => e@.is_suffix_of(said[i]),
            },
    decreases results.len(),
{
    if results.len() > 0 {
        let r = results.drop_last();
        assert forall|i: int| 0 <= i < r.len() implies noted(
            counts.drop_last()[i],
            targets.drop_last()[i],
            #[trigger] r[i],
            counts.drop_last()[i + 1],
            said.drop_last()[i],
        ) by {
            assert(r[i] == results[i]);
        }
        law_every_failure_counts(targets.drop_last(), r, counts.drop_last(), said.drop_last());
        assert(results.last() == results[results.len() - 1]);
        assert forall|i: int| 0 <= i < results.len() implies match #[trigger] results[i] {
            Ok(s) => said[i] == s@,
            Err(e) => e@.is_suffix_of(said[i]),
        } by {
            if let Err(e) = results[i] {
                assert(said[i].subrange(said[i].len() - e@.len(), said[i].len() as int) =~= e@);
            }
        }
    }
}

/// What names only a host kills nothing: a host by any of its names, with or
/// without a colon behind it. A host and a session name that session there, and
/// a word that names no host a session here.
pub proof fn law_hosts_are_never_killed(
    c: ConfigFile,
    host: Seq<char>,
    session: Seq<char>,
    tunnels: Seq<Seq<char>>,
)
    requires
        !host.contains(':'),
    ensures
        kill_meaning(c, host + ":"@, tunnels) == Kill::HostOnly(config::canonical(c, host)),
        session.len() > 0 ==> kill_meaning(c, host + ":"@ + session, tunnels) == (Kill::Session {
            host: config::canonical(c, host),
            session,
        }),
        host == "local"@ || tunnels.contains(host) || config::canonical(c, host) != host
            ==> kill_meaning(c, host, tunnels) == Kill::HostOnly(config::canonical(c, host)),
        host != "local"@ && !tunnels.contains(host) && config::canonical(c, host) == host
            ==> kill_meaning(c, host, tunnels) == (Kill::Session {
            host: "local"@,
            session: host,
        }),
{
    reveal_strlit(":");
    target::law_targets_read_back(host, session);
    assert((host + ":"@)[host.len() as int] == ':');
    assert((host + ":"@ + session)[host.len() as int] == ':');
}

/// What the user typed is tried as a number only after no session had it for a
/// name, and only where it is one.
pub proof fn law_numbers_are_tried_last(user: Seq<char>, client: Seq<char>, reply: ServerReply)
    requires
        tries_number(user, client, reply),
    ensures
        reply matches ServerReply::Failed { code, .. } && code == ErrorCode::NoSuchSession,
        target::numeric_id(user) is Some,
        naming::full_name(user, client) != user,
{
}

} // verus!
