//! `connect`: which session is meant, attaching to it, and making it where it
//! does not exist.

use vstd::prelude::*;
use crate::client::ClientConfig;
use crate::config::SessionSettings;
use crate::naming;
use crate::naming::resolve_session_name;
use crate::protocol;
use crate::protocol::{require_matched_version, ErrorCode, SessionEntry, PROTOCOL_VERSION};
use crate::reconnect::AttachRequest;
use crate::sessions;
use crate::sessions::{auto_attach_target, auto_new_session_name, detached_alert, host_from_ctl_path};
use crate::text;
use crate::text::{cat2, cat3, copy, same};

verus! {

/// The configuration of the client for a session that it is attached to.
pub fn client_config(
    name: &str,
    session_id: u32,
    ctl_path: &str,
    settings: &SessionSettings,
    server_id: u64,
    device_id: u64,
) -> (r: ClientConfig)
    ensures
        r.session@ == name@,
        r.session_id == session_id,
        r.ctl_path@ == ctl_path@,
        r.env_vars@.len() == 0,
        r.no_escape == settings.no_escape,
        r.forward_agent == settings.forward_agent,
        r.forward_open == settings.forward_open,
        r.oauth_redirect == settings.oauth_redirect,
        r.oauth_timeout == settings.oauth_timeout,
        r.heartbeat_interval == settings.heartbeat_interval,
        r.heartbeat_timeout == settings.heartbeat_timeout,
        r.client_name@ == settings.client_name@,
        r.expected_server_id == server_id,
        r.device_id == device_id,
{
    ClientConfig {
        session: copy(name),
        session_id,
        ctl_path: copy(ctl_path),
        env_vars: Vec::new(),
        no_escape: settings.no_escape,
        forward_agent: settings.forward_agent,
        forward_open: settings.forward_open,
        oauth_redirect: settings.oauth_redirect,
        oauth_timeout: settings.oauth_timeout,
        heartbeat_interval: settings.heartbeat_interval,
        heartbeat_timeout: settings.heartbeat_timeout,
        client_name: copy(settings.client_name.as_str()),
        expected_server_id: server_id,
        device_id,
    }
}

/// The request to attach for the first time: there is no earlier position, so
/// the server shows the recent output. A mere look asks for no size.
pub fn first_attach(
    name: &str,
    client_name: &str,
    force: bool,
    detach: bool,
    cols: u16,
    rows: u16,
) -> (r: AttachRequest)
    ensures
        r.session@ == name@,
        r.client_name@ == client_name@,
        r.force == force,
        r.no_replay == detach,
        r.cols == (if detach {
            0
        } else {
            cols
        }),
        r.rows == (if detach {
            0
        } else {
            rows
        }),
        r.attach_token == 0,
        r.rendered_offset == 0,
        !r.line_dirty,
{
    AttachRequest {
        session: copy(name),
        client_name: copy(client_name),
        force,
        no_replay: detach,
        cols: if detach {
            0
        } else {
            cols
        },
        rows: if detach {
            0
        } else {
            rows
        },
        attach_token: 0,
        rendered_offset: 0,
        line_dirty: false,
    }
}

/// A request to make a session.
pub struct NewSessionRequest {
    pub name: String,
    /// What to run in place of a shell; empty for the shell.
    pub command: String,
    /// Where to start; empty for wherever the server starts a shell.
    pub cwd: String,
    pub cols: u16,
    pub rows: u16,
    pub client_name: String,
}

/// The request to make a session. A terminal of unknown size asks for none.
pub fn new_session_request(
    name: &str,
    command: &str,
    client_name: &str,
    size: Option<(u16, u16)>,
) -> (r: NewSessionRequest)
    ensures
        r.name@ == name@,
        r.command@ == command@,
        r.cwd@ == ""@,
        (r.cols, r.rows) == (match size {
            Some(s) => s,
            None => (0u16, 0u16),
        }),
        r.client_name@ == client_name@,
{
    let (cols, rows) = match size {
        Some(s) => s,
        None => (0u16, 0u16),
    };
    NewSessionRequest {
        name: copy(name),
        command: copy(command),
        cwd: copy(""),
        cols,
        rows,
        client_name: copy(client_name),
    }
}

/// The flags of `connect`.
#[derive(Clone, Copy)]
pub struct ConnectFlags {
    pub detach: bool,
    pub no_create: bool,
    pub force: bool,
    pub pick: bool,
    pub no_pick: bool,
    pub new_session: bool,
    pub wait: bool,
}

#[derive(Clone, Copy, PartialEq, Eq, Structural)]
pub enum AttachPhase {
    /// Nothing done yet.
    Begin,
    /// The sessions are listed, to find the one that is meant.
    Choosing,
    /// The user picks a session.
    Picking,
    /// A server is being reached.
    Reaching,
    /// The sessions are listed, to find a free name.
    Naming,
    /// The server is asked to attach.
    Asking,
    /// The server is reached again, to make the session.
    ReachingAgain,
    /// The server is asked to make the session.
    Making,
    /// The session is made; the server confirms the attachment.
    Confirming,
    /// The environment is sent.
    Sending,
    /// The sessions are listed, to tell of those that are detached.
    Alerting,
    Over,
}

/// Connecting to a session.
pub struct Attach {
    pub ctl_path: String,
    pub client_name: String,
    /// What a new session runs in place of a shell; empty for the shell.
    pub command: String,
    pub flags: ConnectFlags,
    pub phase: AttachPhase,
    /// The session, once it is known.
    pub name: Option<String>,
    /// Whether to take the session over.
    pub force: bool,
    /// The number of the session that was made.
    pub id: u32,
}

/// The state of connecting, as a value.
pub struct AttachModel {
    pub ctl_path: Seq<char>,
    pub client: Seq<char>,
    pub command: Seq<char>,
    pub flags: ConnectFlags,
    pub phase: AttachPhase,
    pub name: Option<Seq<char>>,
    pub force: bool,
    pub id: u32,
}

impl View for Attach {
    type V = AttachModel;

    open spec fn view(&self) -> AttachModel {
        AttachModel {
            ctl_path: self.ctl_path@,
            client: self.client_name@,
            command: self.command@,
            flags: self.flags,
            phase: self.phase,
            name: text::owned_view(self.name),
            force: self.force,
            id: self.id,
        }
    }
}

/// What the server said.
pub enum ServerReply {
    Granted,
    Attached { session_id: u32 },
    Created { id: u32 },
    Failed { code: ErrorCode, message: String },
    /// Something else.
    Unexpected,
}

/// What happened.
pub enum AttachEvent {
    Start,
    Listed(Option<Vec<SessionEntry>>),
    Picked { name: String, force: bool },
    /// A server answered, with the version of the protocol that it speaks.
    Reached { version: u16 },
    /// The server's reply, and the same as it is shown where it makes no sense.
    Answered { reply: ServerReply, shown: String },
    Sent,
}

/// What to do next.
pub enum AttachAction {
    /// List the sessions, if the server can be asked.
    List,
    /// Let the user pick.
    Pick,
    /// Get a server to answer.
    Reach,
    /// Ask to attach to this session.
    AskAttach { session: String, force: bool },
    /// Ask to make this session, with what it is to run.
    AskNew { session: String, command: String },
    /// Say this, then wait for the next answer.
    AwaitAck { line: String },
    /// Send the environment.
    SendEnv,
    /// Say this, then run the client on the session.
    Run { say: Option<String>, session_id: u32 },
    /// Say this and be done.
    Done { say: Option<String> },
    /// Say this and fail.
    Fail(String),
}

pub open spec fn green_note(s: Seq<char>) -> Seq<char> {
    "\x1b[32m\u{25b8} "@ + s + "\x1b[0m"@
}

/// A line about something that went well.
pub fn good_note(s: &str) -> (r: String)
    ensures
        r@ == green_note(s@),
{
    cat3("\x1b[32m\u{25b8} ", s, "\x1b[0m")
}

/// What is said of a reply that makes no sense at that point.
pub open spec fn unexpected(e: Seq<char>) -> Seq<char> {
    "unexpected response from server: "@ + e
}

/// What is said of a reply that ends the attempt.
pub open spec fn refusal(r: ServerReply, shown: Seq<char>) -> Seq<char> {
    match r {
        ServerReply::Failed { message, .. } => message@,
        _ => unexpected(shown),
    }
}

fn refuse(r: &ServerReply, shown: &str) -> (s: String)
    ensures
        s@ == refusal(*r, shown@),
{
    match r {
        ServerReply::Failed { message, .. } => copy(message.as_str()),
        _ => cat2("unexpected response from server: ", shown),
    }
}

pub open spec fn over(m: AttachModel) -> AttachModel {
    AttachModel { phase: AttachPhase::Over, ..m }
}

pub open spec fn fails_with(a: AttachAction, s: Seq<char>) -> bool {
    a is Fail && a->Fail_0@ == s
}

/// The name that is used where nothing says otherwise.
pub open spec fn first_slot(client: Seq<char>) -> Seq<char> {
    naming::full_name("0"@, client)
}

/// What follows when the server answered the request to attach.
pub open spec fn asked_effect(
    pre: AttachModel,
    name: Seq<char>,
    r: ServerReply,
    shown: Seq<char>,
    post: AttachModel,
    a: AttachAction,
) -> bool {
    match r {
        ServerReply::Attached { session_id } => {
            &&& post == over(pre)
            &&& a is Run && a->Run_session_id == session_id
            &&& text::owned_view(a->Run_say) == Some(green_note("attached "@ + name))
        },
        ServerReply::Granted => if pre.flags.detach {
            &&& post == over(pre)
            &&& a is Done && text::owned_view(a->Done_say) == Some(
                green_note("session "@ + name + " exists (not attaching, -d)"@),
            )
        } else {
            post == over(pre) && fails_with(a, refusal(r, shown))
        },
        ServerReply::Failed { code, message } => if code == ErrorCode::NoSuchSession {
            if name == "-"@ {
                &&& post == over(pre)
                &&& fails_with(
                    a,
                    "no previously-attached session on "@ + sessions::shown_host(pre.ctl_path),
                )
            } else if pre.flags.no_create {
                post == over(pre) && fails_with(a, "no such session: "@ + name)
            } else {
                &&& post == (AttachModel { phase: AttachPhase::ReachingAgain, ..pre })
                &&& a is Reach
            }
        } else if code == ErrorCode::AlreadyAttached {
            &&& post == over(pre)
            &&& fails_with(
                a,
                message@ + "\n  gritty connect "@ + sessions::shown_host(pre.ctl_path) + ":"@ + name
                    + " --force   to take over"@,
            )
        } else {
            post == over(pre) && fails_with(a, message@)
        },
        _ => post == over(pre) && fails_with(a, refusal(r, shown)),
    }
}

/// Whether the next thing is to get a server to answer, for this session.
pub open spec fn reaches(
    pre: AttachModel,
    name: Option<Seq<char>>,
    post: AttachModel,
    a: AttachAction,
) -> bool {
    &&& post == (AttachModel { phase: AttachPhase::Reaching, name, ..pre })
    &&& a is Reach
}

/// Whether the next thing is to ask for this session.
pub open spec fn asks(
    pre: AttachModel,
    name: Seq<char>,
    post: AttachModel,
    a: AttachAction,
) -> bool {
    &&& post == (AttachModel { phase: AttachPhase::Asking, name: Some(name), ..pre })
    &&& a is AskAttach && a->AskAttach_session@ == name && a->AskAttach_force == pre.force
}

/// What is said after a session was made about others that are detached.
pub open spec fn alert_text(
    v: Seq<SessionEntry>,
    name: Seq<char>,
    client: Seq<char>,
) -> Option<Seq<char>> {
    let names = sessions::forgotten(v, name, client);
    if names.len() == 0 {
        None
    } else {
        Some(
            "\x1b[2;33m\u{25b8} detached sessions: "@ + text::join(names, ", "@) + "\x1b[0m"@,
        )
    }
}

/// The step from one state to the next, and what to do then.
pub open spec fn attach_effect(
    pre: AttachModel,
    event: AttachEvent,
    post: AttachModel,
    a: AttachAction,
) -> bool {
    match (pre.phase, event) {
        (AttachPhase::Begin, AttachEvent::Start) => match pre.name {
            Some(n) => reaches(pre, Some(n), post, a),
            None => if pre.flags.new_session {
                reaches(pre, None, post, a)
            } else if pre.flags.no_pick {
                reaches(pre, Some(first_slot(pre.client)), post, a)
            } else {
                &&& post == (AttachModel { phase: AttachPhase::Choosing, ..pre })
                &&& a is List
            },
        },
        (AttachPhase::Choosing, AttachEvent::Listed(v)) => match v {
            None => reaches(pre, Some(first_slot(pre.client)), post, a),
            Some(v) => {
                let choice = sessions::attach_choice(v@, pre.client);
                if !pre.flags.pick && choice is Some {
                    reaches(pre, choice, post, a)
                } else {
                    &&& post == (AttachModel { phase: AttachPhase::Picking, ..pre })
                    &&& a is Pick
                }
            },
        },
        (AttachPhase::Picking, AttachEvent::Picked { name, force }) => reaches(
            AttachModel { force: pre.force || force, ..pre },
            Some(name@),
            post,
            a,
        ),
        (AttachPhase::Reaching, AttachEvent::Reached { version }) => if version
            != PROTOCOL_VERSION {
            post == over(pre) && fails_with(a, protocol::mismatch_text(version))
        } else {
            match pre.name {
                Some(n) => asks(pre, n, post, a),
                None => {
                    &&& post == (AttachModel { phase: AttachPhase::Naming, ..pre })
                    &&& a is List
                },
            }
        },
        (AttachPhase::Naming, AttachEvent::Listed(v)) => asks(
            pre,
            match v {
                Some(v) => sessions::suggestion(
                    sessions::rows_of(v@, pre.client, 0, seq![]),
                    pre.client,
                ),
                None => first_slot(pre.client),
            },
            post,
            a,
        ),
        (AttachPhase::Asking, AttachEvent::Answered { reply: r, shown }) => match pre.name {
            Some(n) => asked_effect(pre, n, r, shown@, post, a),
            None => post == over(pre) && fails_with(a, "no session"@),
        },
        (AttachPhase::ReachingAgain, AttachEvent::Reached { version }) => if version
            != PROTOCOL_VERSION {
            post == over(pre) && fails_with(a, protocol::mismatch_text(version))
        } else {
            match pre.name {
                Some(n) => {
                    &&& post == (AttachModel { phase: AttachPhase::Making, ..pre })
                    &&& a is AskNew && a->AskNew_session@ == n && a->command@ == pre.command
                },
                None => post == over(pre) && fails_with(a, "no session"@),
            }
        },
        (AttachPhase::Making, AttachEvent::Answered { reply: r, shown }) => match (r, pre.name) {
            (ServerReply::Created { id }, Some(n)) => {
                &&& post == (AttachModel { phase: AttachPhase::Confirming, id, ..pre })
                &&& a is AwaitAck && a->line@ == green_note("session "@ + n)
            },
            (_, _) => post == over(pre) && fails_with(a, refusal(r, shown@)),
        },
        (AttachPhase::Confirming, AttachEvent::Answered { reply: r, shown }) => match r {
            ServerReply::Attached { .. } => {
                &&& post == (AttachModel { phase: AttachPhase::Sending, ..pre })
                &&& a is SendEnv
            },
            _ => post == over(pre) && fails_with(a, unexpected(shown@)),
        },
        (AttachPhase::Sending, AttachEvent::Sent) => if pre.flags.detach {
            post == over(pre) && a is Done && a->Done_say is None
        } else {
            post == (AttachModel { phase: AttachPhase::Alerting, ..pre }) && a is List
        },
        (AttachPhase::Alerting, AttachEvent::Listed(v)) => {
            &&& post == over(pre)
            &&& a is Run && a->Run_session_id == pre.id
            &&& text::owned_view(a->Run_say) == match (v, pre.name) {
                (Some(v), Some(n)) => alert_text(v@, n, pre.client),
                (_, _) => None,
            }
        },
        // Nothing else can happen.
        (_, _) => post == over(pre) && fails_with(a, "no session"@),
    }
}

/// The state before anything is done.
pub open spec fn beginning(
    session: Option<Seq<char>>,
    command: Option<Seq<char>>,
    flags: ConnectFlags,
    client: Seq<char>,
    ctl_path: Seq<char>,
) -> AttachModel {
    AttachModel {
        ctl_path,
        client,
        command: match command {
            Some(c) => c,
            None => ""@,
        },
        flags,
        phase: AttachPhase::Begin,
        name: session,
        force: flags.force,
        id: 0,
    }
}

impl Attach {
    /// Begin, with the full name of the session where one was named.
    pub fn new(
        session: Option<String>,
        command: Option<String>,
        flags: ConnectFlags,
        client_name: &str,
        ctl_path: &str,
    ) -> (r: Attach)
        ensures
            r@ == beginning(
                text::owned_view(session),
                text::owned_view(command),
                flags,
                client_name@,
                ctl_path@,
            ),
    {
        Attach {
            ctl_path: copy(ctl_path),
            client_name: copy(client_name),
            command: match command {
                Some(c) => c,
                None => copy(""),
            },
            flags,
            phase: AttachPhase::Begin,
            name: session,
            force: flags.force,
            id: 0,
        }
    }

    fn fail(&mut self, s: String) -> (a: AttachAction)
        ensures
            final(self)@ == over(old(self)@),
            fails_with(a, s@),
    {
        self.phase = AttachPhase::Over;
        AttachAction::Fail(s)
    }

    fn reach(&mut self, name: Option<String>) -> (a: AttachAction)
        ensures
            reaches(old(self)@, text::owned_view(name), final(self)@, a),
    {
        self.name = name;
        self.phase = AttachPhase::Reaching;
        AttachAction::Reach
    }

    fn ask(&mut self, name: String) -> (a: AttachAction)
        ensures
            asks(old(self)@, name@, final(self)@, a),
    {
        let session = copy(name.as_str());
        self.name = Some(name);
        self.phase = AttachPhase::Asking;
        AttachAction::AskAttach { session, force: self.force }
    }

    fn asked(&mut self, name: String, r: ServerReply, shown: &str) -> (a: AttachAction)
        requires
            old(self)@.name == Some(name@),
        ensures
            asked_effect(old(self)@, name@, r, shown@, final(self)@, a),
    {
        match r {
            ServerReply::Attached { session_id } => {
                self.phase = AttachPhase::Over;
                let line = cat2("attached ", name.as_str());
                AttachAction::Run { say: Some(good_note(line.as_str())), session_id }
            },
            ServerReply::Granted => {
                if self.flags.detach {
                    self.phase = AttachPhase::Over;
                    let line = cat3("session ", name.as_str(), " exists (not attaching, -d)");
                    AttachAction::Done { say: Some(good_note(line.as_str())) }
                } else {
                    self.fail(refuse(&r, shown))
                }
            },
            ServerReply::Failed { code, message } => {
                if code == ErrorCode::NoSuchSession {
                    if same(name.as_str(), "-") {
                        let host = host_from_ctl_path(self.ctl_path.as_str());
                        self.fail(cat2("no previously-attached session on ", host.as_str()))
                    } else if self.flags.no_create {
                        self.fail(cat2("no such session: ", name.as_str()))
                    } else {
                        self.phase = AttachPhase::ReachingAgain;
                        AttachAction::Reach
                    }
                } else if code == ErrorCode::AlreadyAttached {
                    let host = host_from_ctl_path(self.ctl_path.as_str());
                    self.fail(
                        text::cat6(
                            message.as_str(),
                            "\n  gritty connect ",
                            host.as_str(),
                            ":",
                            name.as_str(),
                            " --force   to take over",
                        ),
                    )
                } else {
                    self.fail(message)
                }
            },
            _ => self.fail(refuse(&r, shown)),
        }
    }

    fn known_name(&self) -> (r: Option<String>)
        ensures
            text::owned_view(r) == self@.name,
    {
        match &self.name {
            Some(n) => Some(copy(n.as_str())),
            None => None,
        }
    }

    /// Take in what happened.
    pub fn step(&mut self, event: AttachEvent) -> (a: AttachAction)
        ensures
            attach_effect(old(self)@, event, final(self)@, a),
    {
        let name = self.known_name();
        match self.phase {
            AttachPhase::Begin => match event {
                AttachEvent::Start => {
                    if name.is_some() || self.flags.new_session {
                        return self.reach(name);
                    }
                    if self.flags.no_pick {
                        let slot = resolve_session_name("0", self.client_name.as_str());
                        return self.reach(Some(slot));
                    }
                    self.phase = AttachPhase::Choosing;
                    AttachAction::List
                },
                _ => self.fail(copy("no session")),
            },
            AttachPhase::Choosing => match event {
                AttachEvent::Listed(v) => match v {
                    None => {
                        let slot = resolve_session_name("0", self.client_name.as_str());
                        self.reach(Some(slot))
                    },
                    Some(v) => {
                        let choice = auto_attach_target(&v, self.client_name.as_str());
                        if !self.flags.pick && choice.is_some() {
                            return self.reach(choice);
                        }
                        self.phase = AttachPhase::Picking;
                        AttachAction::Pick
                    },
                },
                _ => self.fail(copy("no session")),
            },
            AttachPhase::Picking => match event {
                AttachEvent::Picked { name: picked, force } => {
                    self.force = self.force || force;
                    self.reach(Some(picked))
                },
                _ => self.fail(copy("no session")),
            },
            AttachPhase::Reaching => match event {
                AttachEvent::Reached { version } => {
                    if let Err(e) = require_matched_version(version) {
                        return self.fail(e);
                    }
                    match name {
                        Some(n) => self.ask(n),
                        None => {
                            self.phase = AttachPhase::Naming;
                            AttachAction::List
                        },
                    }
                },
                _ => self.fail(copy("no session")),
            },
            AttachPhase::Naming => match event {
                AttachEvent::Listed(v) => {
                    let found = match &v {
                        Some(list) => auto_new_session_name(Some(list), self.client_name.as_str()),
                        None => auto_new_session_name(None, self.client_name.as_str()),
                    };
                    self.ask(found)
                },
                _ => self.fail(copy("no session")),
            },
            AttachPhase::Asking => match event {
                AttachEvent::Answered { reply, shown } => match name {
                    Some(n) => self.asked(n, reply, shown.as_str()),
                    None => self.fail(copy("no session")),
                },
                _ => self.fail(copy("no session")),
            },
            AttachPhase::ReachingAgain => match event {
                AttachEvent::Reached { version } => {
                    if let Err(e) = require_matched_version(version) {
                        return self.fail(e);
                    }
                    match name {
                        Some(n) => {
                            self.phase = AttachPhase::Making;
                            AttachAction::AskNew {
                                session: n,
                                command: copy(self.command.as_str()),
                            }
                        },
                        None => self.fail(copy("no session")),
                    }
                },
                _ => self.fail(copy("no session")),
            },
            AttachPhase::Making => match event {
                AttachEvent::Answered { reply: r, shown } => {
                    match &r {
                        ServerReply::Created { id } => match name {
                            Some(n) => {
                                self.id = *id;
                                self.phase = AttachPhase::Confirming;
                                let line = cat2("session ", n.as_str());
                                return AttachAction::AwaitAck { line: good_note(line.as_str()) };
                            },
                            None => {},
                        },
                        _ => {},
                    }
                    self.fail(refuse(&r, shown.as_str()))
                },
                _ => self.fail(copy("no session")),
            },
            AttachPhase::Confirming => match event {
                AttachEvent::Answered { reply: r, shown } => {
                    match &r {
                        ServerReply::Attached { .. } => {
                            self.phase = AttachPhase::Sending;
                            return AttachAction::SendEnv;
                        },
                        _ => {},
                    }
                    self.fail(cat2("unexpected response from server: ", shown.as_str()))
                },
                _ => self.fail(copy("no session")),
            },
            AttachPhase::Sending => match event {
                AttachEvent::Sent => {
                    if self.flags.detach {
                        self.phase = AttachPhase::Over;
                        AttachAction::Done { say: None }
                    } else {
                        self.phase = AttachPhase::Alerting;
                        AttachAction::List
                    }
                },
                _ => self.fail(copy("no session")),
            },
            AttachPhase::Alerting => match event {
                AttachEvent::Listed(v) => {
                    self.phase = AttachPhase::Over;
                    let say = match (&v, &name) {
                        (Some(v), Some(n)) => detached_alert(
                            n.as_str(),
                            v,
                            self.client_name.as_str(),
                        ),
                        (_, _) => None,
                    };
                    AttachAction::Run { say, session_id: self.id }
                },
                _ => self.fail(copy("no session")),
            },
            AttachPhase::Over => self.fail(copy("no session")),
        }
    }
}

/// A session is made only after the server said that it does not exist, and
/// never under the name that stands for the last one.
pub proof fn law_attach_comes_first(
    pre: AttachModel,
    event: AttachEvent,
    post: AttachModel,
    a: AttachAction,
)
    requires
        attach_effect(pre, event, post, a),
        post.phase == AttachPhase::ReachingAgain,
    ensures
        pre.phase == AttachPhase::Asking,
        !pre.flags.no_create,
        pre.name is Some && pre.name->0 != "-"@,
        event is Answered && event->reply is Failed && event->reply->code == ErrorCode::NoSuchSession,
{
}

/// The name for a new session is looked for only once a server answers, so
/// that a server that was down cannot make an old slot look free.
pub proof fn law_new_name_waits_for_the_server(
    pre: AttachModel,
    event: AttachEvent,
    post: AttachModel,
    a: AttachAction,
)
    requires
        attach_effect(pre, event, post, a),
        pre.phase == AttachPhase::Begin,
        pre.name is None,
        pre.flags.new_session,
        event is Start,
    ensures
        a is Reach,
        post.name is None,
        post.phase == AttachPhase::Reaching,
{
}

/// Nobody is taken over unless the user asks for it.
pub proof fn law_force_is_never_made_up(
    pre: AttachModel,
    event: AttachEvent,
    post: AttachModel,
    a: AttachAction,
)
    requires
        attach_effect(pre, event, post, a),
        post.force,
    ensures
        pre.force || (event is Picked && event->force),
{
}

/// Sides that speak different versions refuse to talk: nothing is asked of a
/// server whose version is not ours.
pub proof fn law_mismatched_sides_never_talk(
    pre: AttachModel,
    version: u16,
    post: AttachModel,
    a: AttachAction,
)
    requires
        attach_effect(pre, AttachEvent::Reached { version }, post, a),
        version != PROTOCOL_VERSION,
    ensures
        a is Fail,
        post.phase is Over,
        pre.phase is Reaching || pre.phase is ReachingAgain ==> fails_with(
            a,
            protocol::mismatch_text(version),
        ),
{
}

/// What the user wants a new session to run reaches the server unchanged.
pub proof fn law_command_is_handed_over(
    pre: AttachModel,
    event: AttachEvent,
    post: AttachModel,
    a: AttachAction,
)
    requires
        attach_effect(pre, event, post, a),
    ensures
        post.command == pre.command,
        a is AskNew ==> a->command@ == pre.command,
{
}

/// One step of connecting.
pub struct AttachStep {
    pub pre: AttachModel,
    pub event: AttachEvent,
    pub post: AttachModel,
    pub action: AttachAction,
}

/// Whether an event is the answer to what was last to be done.
pub open spec fn is_next(run: Seq<AttachStep>, event: AttachEvent) -> bool {
    if run.len() == 0 {
        event is Start
    } else {
        match run.last().action {
            AttachAction::List => event is Listed,
            AttachAction::Pick => event is Picked,
            AttachAction::Reach => event is Reached,
            AttachAction::AskAttach { .. } => event is Answered,
            AttachAction::AskNew { .. } => event is Answered,
            AttachAction::AwaitAck { .. } => event is Answered,
            AttachAction::SendEnv => event is Sent,
            _ => false,
        }
    }
}

/// Whether these are the steps of connecting, from the start on.
pub open spec fn is_connecting(start: AttachModel, run: Seq<AttachStep>) -> bool
    decreases run.len(),
{
    run.len() == 0 || {
        let before = run.drop_last();
        let t = run.last();
        &&& is_connecting(start, before)
        &&& attach_effect(t.pre, t.event, t.post, t.action)
        &&& is_next(before, t.event)
        &&& t.pre == (if before.len() == 0 {
            start
        } else {
            before.last().post
        })
    }
}

/// The session that the server was last asked for.
pub open spec fn asked_for(run: Seq<AttachStep>) -> Option<Seq<char>>
    decreases run.len(),
{
    if run.len() == 0 {
        None
    } else {
        match run.last().action {
            AttachAction::AskAttach { session, .. } => Some(session@),
            AttachAction::AskNew { session, .. } => Some(session@),
            _ => asked_for(run.drop_last()),
        }
    }
}

/// Whether a server was looked for.
pub open spec fn has_reached(run: Seq<AttachStep>) -> bool
    decreases run.len(),
{
    run.len() > 0 && (run.last().action is Reach || has_reached(run.drop_last()))
}

/// The number of the session that the server made.
pub open spec fn made(run: Seq<AttachStep>) -> Option<u32>
    decreases run.len(),
{
    if run.len() == 0 {
        None
    } else {
        match run.last().event {
            AttachEvent::Answered { reply: ServerReply::Created { id }, .. } => Some(id),
            _ => made(run.drop_last()),
        }
    }
}

/// The session that the user picked, and whether to take it over.
pub open spec fn picked(run: Seq<AttachStep>) -> Option<(Seq<char>, bool)>
    decreases run.len(),
{
    if run.len() == 0 {
        None
    } else {
        match run.last().event {
            AttachEvent::Picked { name, force } => Some((name@, force)),
            _ => picked(run.drop_last()),
        }
    }
}

/// The sessions that were listed last.
pub open spec fn listed(run: Seq<AttachStep>) -> Option<Seq<SessionEntry>>
    decreases run.len(),
{
    if run.len() == 0 {
        None
    } else {
        match run.last().event {
            AttachEvent::Listed(Some(v)) => Some(v@),
            AttachEvent::Listed(None) => None,
            _ => listed(run.drop_last()),
        }
    }
}

/// The phase that goes with what is to be done.
spec fn phase_for(run: Seq<AttachStep>) -> AttachPhase {
    let before = run.drop_last();
    match run.last().action {
        AttachAction::List => if made(run) is Some {
            AttachPhase::Alerting
        } else if has_reached(before) {
            AttachPhase::Naming
        } else {
            AttachPhase::Choosing
        },
        AttachAction::Pick => AttachPhase::Picking,
        AttachAction::Reach => if asked_for(before) is Some {
            AttachPhase::ReachingAgain
        } else {
            AttachPhase::Reaching
        },
        AttachAction::AskAttach { .. } => AttachPhase::Asking,
        AttachAction::AskNew { .. } => AttachPhase::Making,
        AttachAction::AwaitAck { .. } => AttachPhase::Confirming,
        AttachAction::SendEnv => AttachPhase::Sending,
        _ => AttachPhase::Over,
    }
}

spec fn keeps_track(start: AttachModel, run: Seq<AttachStep>) -> bool {
    let m = run.last().post;
    &&& m.phase == phase_for(run)
    &&& m.client == start.client && m.command == start.command && m.flags == start.flags
        && m.ctl_path == start.ctl_path
    &&& m.force == (start.flags.force || (picked(run) is Some && (picked(run)->0).1))
    &&& made(run) is Some && !(m.phase is Over) ==> m.id == made(run)->0
    &&& asked_for(run) is Some ==> m.name == asked_for(run)
    &&& m.phase is Asking || m.phase is Making || m.phase is ReachingAgain || m.phase is Confirming
        || m.phase is Sending || m.phase is Alerting ==> asked_for(run) is Some
    &&& m.phase is Alerting || m.phase is Sending || m.phase is Confirming ==> made(run) is Some
    &&& m.phase is Choosing || m.phase is Picking || m.phase is Reaching || m.phase is Naming
        || m.phase is Asking || m.phase is ReachingAgain || m.phase is Making ==> made(run) is None
    &&& m.phase is Choosing || m.phase is Picking ==> !has_reached(run) && asked_for(run) is None
        && start.name is None && m.name is None && !start.flags.new_session
        && !start.flags.no_pick
    &&& m.phase is Reaching ==> asked_for(run) is None && m.name == wanted(start, run) && (m.name
        is None ==> start.flags.new_session)
    &&& m.phase is Naming ==> asked_for(run) is None && m.name is None && start.name is None
        && start.flags.new_session
    &&& m.phase is Picking || m.phase is Choosing || m.phase is Naming || m.phase is Reaching ==> (
    picked(run) is Some ==> start.name is None && m.phase is Reaching && !start.flags.new_session)
}

/// The session that is wanted, as far as it is known: the one that was named,
/// or picked, or the only sensible one of those that were listed; the first
/// one where the server listed none or the user wants no questions.
pub open spec fn wanted(start: AttachModel, run: Seq<AttachStep>) -> Option<Seq<char>> {
    if start.name is Some {
        start.name
    } else if start.flags.new_session {
        None
    } else if picked(run) is Some {
        Some((picked(run)->0).0)
    } else if !start.flags.no_pick && listed(run) is Some {
        sessions::attach_choice(listed(run)->0, start.client)
    } else {
        Some(first_slot(start.client))
    }
}

proof fn lemma_keeps_track(start: AttachModel, run: Seq<AttachStep>)
    requires
        is_connecting(start, run),
        run.len() > 0,
        start.phase is Begin,
        start.force == start.flags.force,
    ensures
        keeps_track(start, run),
    decreases run.len(),
{
    reveal_with_fuel(asked_for, 2);
    reveal_with_fuel(has_reached, 2);
    reveal_with_fuel(made, 2);
    reveal_with_fuel(picked, 2);
    reveal_with_fuel(listed, 2);
    if run.len() > 1 {
        lemma_keeps_track(start, run.drop_last());
    }
}

/// Connecting leads to the session that is wanted. Where it exists, the user is
/// attached to it; where it does not, it is made under that very name, with
/// the command that was given, unless that is forbidden; and the client then
/// runs on the session that the server says it attached or made. Nobody is
/// taken over unless the user says so, and nothing runs where the user wants
/// only that the session is there.
pub proof fn law_connecting_leads_to_the_wanted_session(
    session: Option<Seq<char>>,
    command: Option<Seq<char>>,
    flags: ConnectFlags,
    client: Seq<char>,
    ctl_path: Seq<char>,
    run: Seq<AttachStep>,
)
    requires
        is_connecting(beginning(session, command, flags, client, ctl_path), run),
        run.len() > 1,
    ensures
        ({
            let start = beginning(session, command, flags, client, ctl_path);
            let before = run.drop_last();
            let said = run.last().event;
            let a = run.last().action;
            let taking = flags.force || (picked(before) is Some && (picked(before)->0).1);
            match before.last().action {
                AttachAction::Reach => if said->version != PROTOCOL_VERSION {
                    a is Fail
                } else if asked_for(before) is Some {
                    &&& a is AskNew && Some(a->AskNew_session@) == asked_for(before)
                    &&& command matches Some(c) ==> a->command@ == c
                    &&& command is None ==> a->command@.len() == 0
                } else if wanted(start, before) is Some {
                    &&& a is AskAttach && Some(a->AskAttach_session@) == wanted(start, before)
                    &&& a->AskAttach_force == taking
                } else {
                    a is List
                },
                AttachAction::AskAttach { session: asked, .. } => match said->reply {
                    ServerReply::Attached { session_id } => a is Run && a->Run_session_id
                        == session_id,
                    ServerReply::Granted => if flags.detach {
                        a is Done
                    } else {
                        a is Fail
                    },
                    ServerReply::Failed { code, .. } => if code == ErrorCode::NoSuchSession
                        && !flags.no_create && asked@ != "-"@ {
                        a is Reach
                    } else {
                        a is Fail
                    },
                    _ => a is Fail,
                },
                AttachAction::AskNew { .. } => if said->reply is Created {
                    a is AwaitAck
                } else {
                    a is Fail
                },
                AttachAction::AwaitAck { .. } => if said->reply is Attached {
                    a is SendEnv
                } else {
                    a is Fail
                },
                AttachAction::SendEnv => if flags.detach {
                    a is Done
                } else {
                    a is List
                },
                AttachAction::List => {
                    &&& made(before) is Some ==> a is Run && made(before) == Some(a->Run_session_id)
                    &&& made(before) is None && has_reached(before) ==> a is AskAttach
                        && a->AskAttach_force == flags.force
                    &&& made(before) is None && !has_reached(before) ==> a is Reach || a is Pick
                    &&& made(before) is None && !has_reached(before) && said->Listed_0 is None
                        ==> a is Reach
                },
                AttachAction::Pick => a is Reach,
                _ => false,
            }
        }),
{
    let start = beginning(session, command, flags, client, ctl_path);
    reveal_strlit("");
    lemma_keeps_track(start, run.drop_last());
}

/// A new session that was asked for never turns out to be an old one: the name
/// that the server is asked for is none of those that it listed.
pub proof fn law_new_sessions_are_new(
    command: Option<Seq<char>>,
    flags: ConnectFlags,
    client: Seq<char>,
    ctl_path: Seq<char>,
    run: Seq<AttachStep>,
    i: int,
)
    requires
        is_connecting(beginning(None, command, flags, client, ctl_path), run),
        flags.new_session,
        run.len() > 1,
        run.last().action is AskAttach,
        listed(run) is Some,
        0 <= i < (listed(run)->0).len(),
    ensures
        sessions::wire_name((listed(run)->0)[i]) != run.last().action->AskAttach_session@,
{
    let start = beginning(None, command, flags, client, ctl_path);
    let before = run.drop_last();
    lemma_keeps_track(start, before);
    lemma_no_list_before_reaching(start, before);
    sessions::law_suggestion_is_no_listed_session(listed(run)->0, client, 0, seq![], i);
}

proof fn lemma_no_list_before_reaching(start: AttachModel, run: Seq<AttachStep>)
    requires
        is_connecting(start, run),
        start.phase is Begin,
        start.force == start.flags.force,
        start.name is None,
        start.flags.new_session,
        run.len() > 0,
    ensures
        run.last().post.phase is Reaching || run.last().post.phase is Naming ==> listed(run) is None,
        asked_for(run) is None && !(run.last().post.phase is Over) ==> run.last().post.phase
            is Reaching || run.last().post.phase is Naming,
    decreases run.len(),
{
    reveal_with_fuel(listed, 2);
    reveal_with_fuel(asked_for, 2);
    if run.len() > 1 {
        lemma_keeps_track(start, run.drop_last());
        lemma_no_list_before_reaching(start, run.drop_last());
    }
}

/// What a request came to: this where the server granted it, else why not.
pub open spec fn granted(r: ServerReply, shown: Seq<char>, good: Seq<char>) -> Result<
    Seq<char>,
    Seq<char>,
> {
    match r {
        ServerReply::Granted => Ok(good),
        _ => Err(refusal(r, shown)),
    }
}

pub open spec fn says(s: Result<String, String>, v: Result<Seq<char>, Seq<char>>) -> bool {
    match v {
        Ok(t) => s is Ok && s->Ok_0@ == t,
        Err(e) => s is Err && s->Err_0@ == e,
    }
}

/// A request succeeds exactly where the server grants it; where it refuses,
/// its own words are passed on, and any other answer is shown as it came.
pub proof fn law_only_granted_requests_succeed(r: ServerReply, shown: Seq<char>, good: Seq<char>)
    ensures
        granted(r, shown, good) is Ok <==> r is Granted,
        r is Granted ==> granted(r, shown, good) == Ok::<Seq<char>, Seq<char>>(good),
        r matches ServerReply::Failed { message, .. } ==> granted(r, shown, good) == Err::<
            Seq<char>,
            Seq<char>,
        >(message@),
        !(r is Granted) && !(r is Failed) ==> (granted(r, shown, good) matches Err(e)
            && shown.is_suffix_of(e)),
{
    let e = unexpected(shown);
    assert(e.subrange(e.len() - shown.len(), e.len() as int) =~= shown);
}

/// What the server's answer to the request to follow a session means.
pub fn tail_reply(target: &str, r: ServerReply, shown: &str) -> (s: Result<String, String>)
    ensures
        says(s, granted(r, shown@, "\x1b[2;33m\u{25b8} tailing "@ + target@ + "\x1b[0m"@)),
{
    match r {
        ServerReply::Granted => Ok(cat3("\x1b[2;33m\u{25b8} tailing ", target, "\x1b[0m")),
        _ => Err(refuse(&r, shown)),
    }
}

/// What the server's answer to a new name means.
pub fn rename_reply(target: &str, new_name: &str, r: ServerReply, shown: &str) -> (s: Result<String, String>)
    ensures
        says(
            s,
            granted(r, shown@, green_note("renamed "@ + target@ + " -> "@ + new_name@)),
        ),
{
    match r {
        ServerReply::Granted => {
            let line = text::cat4("renamed ", target, " -> ", new_name);
            Ok(good_note(line.as_str()))
        },
        _ => Err(refuse(&r, shown)),
    }
}

/// What the server's answer to a request to end means.
pub fn kill_server_reply(r: ServerReply, shown: &str) -> (s: Result<String, String>)
    ensures
        says(s, granted(r, shown@, green_note("server killed"@))),
{
    match r {
        ServerReply::Granted => Ok(good_note("server killed")),
        _ => Err(refuse(&r, shown)),
    }
}

/// What the server's answer to the request to kill a session means.
pub fn kill_reply(user_session: &str, r: ServerReply, shown: &str) -> (s: Result<String, String>)
    ensures
        says(s, granted(r, shown@, green_note("session "@ + user_session@ + " killed"@))),
{
    match r {
        ServerReply::Granted => {
            let line = cat3("session ", user_session, " killed");
            Ok(good_note(line.as_str()))
        },
        _ => Err(refuse(&r, shown)),
    }
}

} // verus!
