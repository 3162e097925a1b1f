//! Bringing a tunnel up and taking it down: the order of the steps, what each
//! outcome leads to, and what the user is told.

use vstd::prelude::*;
use crate::connect;
use crate::connect::{check_remote_protocol_version, format_command, format_ssh_diag, read_pid_hint, remote_exec_command, tunnel_command, validate_connection_name, Destination, DestinationError, NameError, REMOTE_ENSURE_CMD};
use crate::text;
use crate::text::{cat2, cat3, cat4, cat5, copy, decimal_text, join_texts, same, trim};

verus! {

/// How a tunnel is to be created.
pub struct ConnectOpts {
    pub destination: String,
    pub no_server_start: bool,
    /// The options that ssh runs with: command line and configuration.
    pub ssh_options: Vec<String>,
    /// Those of the command line alone, which are recorded for a restart.
    pub cli_ssh_options: Vec<String>,
    pub name: Option<String>,
    pub dry_run: bool,
    pub foreground: bool,
    pub ignore_version_mismatch: bool,
    pub isolate_control_path: bool,
    pub connect_timeout: u64,
}

/// Why a tunnel cannot even be tried.
#[derive(Debug, Clone, Copy, PartialEq, Eq, Structural)]
pub enum PlanError {
    Destination(DestinationError),
    Name(NameError),
}

/// The name of a tunnel: the one that is asked for, else the host.
pub open spec fn tunnel_name(opts: ConnectOpts, d: connect::Dest) -> Seq<char> {
    match opts.name {
        Some(n) => n@,
        None => d.host,
    }
}

/// Whether this is where a tunnel leads and what it is called, or what is wrong
/// with that.
pub open spec fn is_plan(opts: ConnectOpts, r: Result<(Destination, String), PlanError>) -> bool {
    match connect::destination(opts.destination@) {
        Err(e) => r == Err::<(Destination, String), PlanError>(PlanError::Destination(e)),
        Ok(d) => match connect::name_error(tunnel_name(opts, d)) {
            Some(e) => r == Err::<(Destination, String), PlanError>(PlanError::Name(e)),
            None => r matches Ok(p) && p.0@ == d && p.1@ == tunnel_name(opts, d),
        },
    }
}

/// A tunnel leads to the host that is named, as the user that is named, under
/// the name that is asked for or else the name of the host.
pub proof fn law_tunnels_lead_where_they_are_sent(
    opts: ConnectOpts,
    r: Result<(Destination, String), PlanError>,
    user: Seq<char>,
    host: Seq<char>,
)
    requires
        is_plan(opts, r),
        opts.destination@ == user + "@"@ + host,
        user.len() > 0 && !user.contains('@'),
        host.len() > 0 && host[0] != '[',
        !host.contains('@') && !host.contains(':'),
    ensures
        r matches Ok(p) ==> {
            &&& p.0@ == (connect::Dest { user: Some(user), host, port: None })
            &&& opts.name is None ==> p.1@ == host
            &&& opts.name matches Some(n) ==> p.1@ == n@
            &&& connect::name_error(p.1@) is None
        },
        r matches Err(e) ==> e is Name,
{
    connect::law_destinations_read_back(user, host, 0);
}

/// Where the tunnel leads and what it is called.
pub fn plan_connect(opts: &ConnectOpts) -> (r: Result<(Destination, String), PlanError>)
    ensures
        is_plan(*opts, r),
{
    let dest = match Destination::parse(opts.destination.as_str()) {
        Err(e) => {
            return Err(PlanError::Destination(e));
        },
        Ok(d) => d,
    };
    let name = match &opts.name {
        Some(n) => n.clone(),
        None => dest.host.clone(),
    };
    match validate_connection_name(name.as_str()) {
        Err(e) => Err(PlanError::Name(e)),
        Ok(()) => Ok((dest, name)),
    }
}

/// The command that is run on the remote host first.
pub open spec fn ensure_command(no_server_start: bool) -> Seq<char> {
    if no_server_start {
        "gritty socket-path"@
    } else {
        REMOTE_ENSURE_CMD@
    }
}

/// The command that is run on the remote host first: it names the server's
/// socket and, unless that is not wanted, starts the server.
pub fn ensure_remote_command(no_server_start: bool) -> (r: String)
    ensures
        r@ == ensure_command(no_server_start),
{
    if no_server_start {
        copy("gritty socket-path")
    } else {
        copy(REMOTE_ENSURE_CMD)
    }
}

/// What would be run for a tunnel, as a shell script.
pub fn dry_run_text(
    opts: &ConnectOpts,
    dest: &Destination,
    local_sock: &str,
    bin_dir: Option<String>,
    socket_dir: Option<String>,
) -> (r: String)
    ensures
        r@ == "# Get remote socket path"@ + (if opts.no_server_start {
            Seq::<char>::empty()
        } else {
            " and start server if needed"@
        }) + "\nREMOTE_SOCK=$("@ + connect::command_text(
            "ssh"@,
            connect::remote_words(
                dest@,
                connect::wrapped_command(
                    text::owned_view(bin_dir),
                    text::owned_view(socket_dir),
                    ensure_command(opts.no_server_start),
                ),
                text::views(opts.ssh_options@),
                true,
                opts.connect_timeout,
            ),
        ) + ")\n\n# Start SSH tunnel\n"@ + connect::command_text(
            "ssh"@,
            connect::tunnel_words(
                dest@,
                local_sock@,
                "$REMOTE_SOCK"@,
                text::views(opts.ssh_options@),
                true,
                opts.isolate_control_path,
                opts.connect_timeout,
            ),
        ) + "\n"@,
{
    let remote = ensure_remote_command(opts.no_server_start);
    let ensure = remote_exec_command(
        dest,
        remote.as_str(),
        &opts.ssh_options,
        true,
        opts.connect_timeout,
        bin_dir,
        socket_dir,
    );
    let tunnel = tunnel_command(
        dest,
        local_sock,
        "$REMOTE_SOCK",
        &opts.ssh_options,
        true,
        opts.isolate_control_path,
        opts.connect_timeout,
    );
    let mut r = copy("# Get remote socket path");
    if !opts.no_server_start {
        r.append(" and start server if needed");
    } else {
        assert(r@ + Seq::<char>::empty() == r@);
    }
    let a = format_command("ssh", &ensure);
    let b = format_command("ssh", &tunnel);
    r.append("\nREMOTE_SOCK=$(");
    r.append(a.as_str());
    r.append(")\n\n# Start SSH tunnel\n");
    r.append(b.as_str());
    r.append("\n");
    r
}

/// How to look into a tunnel that does not come up.
pub open spec fn advice(
    d: connect::Dest,
    opts: ConnectOpts,
    out_path: Seq<char>,
) -> Seq<char> {
    let diag = connect::diag_text(
        d,
        text::views(opts.ssh_options@),
        opts.foreground,
        opts.connect_timeout,
    );
    if opts.foreground {
        diag
    } else {
        diag + "\n  ssh output: "@ + out_path
            + "\n  if SSH needs a password or host key accept, use: gritty tunnel-create --foreground "@
            + opts.destination@
    }
}

/// How to look into a tunnel that does not come up.
pub fn startup_advice(opts: &ConnectOpts, dest: &Destination, out_path: &str) -> (r: String)
    ensures
        r@ == advice(dest@, *opts, out_path@),
{
    let diag = format_ssh_diag(dest, &opts.ssh_options, opts.foreground, opts.connect_timeout);
    if opts.foreground {
        diag
    } else {
        cat5(
            diag.as_str(),
            "\n  ssh output: ",
            out_path,
            "\n  if SSH needs a password or host key accept, use: gritty tunnel-create --foreground ",
            opts.destination.as_str(),
        )
    }
}

/// What the startup of a tunnel is in the middle of.
#[derive(Debug, Clone, Copy, PartialEq, Eq, Structural)]
pub enum StartPhase {
    Locking,
    WaitingForPeer,
    Ensuring,
    Spawning,
    WaitingForSocket,
    Probing,
    EnsuringAgain,
    ProbingAgain,
    Done,
}

/// The startup of a tunnel.
pub struct Startup {
    pub phase: StartPhase,
    pub name: String,
    pub local_sock: String,
    /// The process that holds the lock, as far as it is known.
    pub peer: Option<u32>,
    /// The remote socket was remembered, not asked for.
    pub used_cache: bool,
    pub remote_sock: String,
    pub ignore_version: bool,
    pub advice: String,
}

/// The startup of a tunnel as a mathematical value.
pub struct StartModel {
    pub phase: StartPhase,
    pub name: Seq<char>,
    pub local_sock: Seq<char>,
    pub peer: Option<u32>,
    pub used_cache: bool,
    pub remote_sock: Seq<char>,
    pub ignore_version: bool,
    pub advice: Seq<char>,
}

impl View for Startup {
    type V = StartModel;

    open spec fn view(&self) -> StartModel {
        StartModel {
            phase: self.phase,
            name: self.name@,
            local_sock: self.local_sock@,
            peer: self.peer,
            used_cache: self.used_cache,
            remote_sock: self.remote_sock@,
            ignore_version: self.ignore_version,
            advice: self.advice@,
        }
    }
}

pub enum StartEvent {
    /// The lock is ours; the file that remembers the remote socket holds this.
    LockAcquired { cached: Option<String> },
    /// Another process has the lock; does its socket take connections?
    LockHeld { socket_up: bool, pid: Option<u32> },
    PeerReady,
    PeerTimedOut(String),
    PeerGone,
    Ensured { sock: String, version: Option<u16> },
    Spawned,
    SocketUp,
    /// The socket never took a connection.
    SocketTimedOut,
    /// ssh ended, with this status.
    ChildExited(String),
    /// The remote server answered with its version, or did not.
    Probed(Result<u16, String>),
    /// A step failed for a reason of its own.
    Failed(String),
}

pub enum StartAction {
    /// Nothing to do for this event.
    Nothing,
    /// Someone else runs the tunnel: print the socket and this line, tell the
    /// parent process, and leave with success.
    Leave { stdout: String, stderr: String },
    /// Print this line, then wait for the other process's socket.
    WaitForPeer { stderr: String },
    EnsureRemote,
    Spawn,
    WaitForSocket,
    Probe,
    /// The tunnel is up: record it, tell the parent process, start watching.
    Ready,
    /// Give up; where the remembered socket is wrong, forget it.
    Fail { message: String, forget_cache: bool },
}

pub open spec fn peer_words(pid: Option<u32>) -> Seq<char> {
    match pid {
        Some(p) => " (pid "@ + text::decimal(p as nat) + ")"@,
        None => Seq::<char>::empty(),
    }
}

/// A line about the tunnel, in color.
pub open spec fn tunnel_line(
    color: Seq<char>,
    name: Seq<char>,
    what: Seq<char>,
    pid: Option<u32>,
) -> Seq<char> {
    color + "\u{25b8} tunnel "@ + name + what + peer_words(pid) + "\x1b[0m"@
}

fn tunnel_note(color: &str, name: &str, what: &str, pid: Option<u32>) -> (r: String)
    ensures
        r@ == tunnel_line(color@, name@, what@, pid),
{
    let mut r = cat4(color, "\u{25b8} tunnel ", name, what);
    match pid {
        Some(p) => {
            let d = decimal_text(p as u64);
            let w = cat3(" (pid ", d.as_str(), ")");
            r.append(w.as_str());
        },
        None => {
            assert(r@ + Seq::<char>::empty() == r@);
        },
    }
    r.append("\x1b[0m");
    r
}

/// The remote socket that the remembering file holds, if any.
pub open spec fn cached_socket(contents: Option<Seq<char>>) -> Option<Seq<char>> {
    match contents {
        Some(c) => if text::trimmed(c).len() > 0 {
            Some(text::trimmed(c))
        } else {
            None
        },
        None => None,
    }
}

/// Whether an action fails with this message.
pub open spec fn fails(a: StartAction, message: Seq<char>, forget: bool) -> bool {
    a matches StartAction::Fail { message: m, forget_cache } && m@ == message && forget_cache
        == forget
}

pub open spec fn done(m: StartModel) -> StartModel {
    StartModel { phase: StartPhase::Done, ..m }
}

/// A probe was answered with a version: where the remote socket was
/// remembered, nobody has looked at the version yet.
pub open spec fn probed(pre: StartModel, version: u16, post: StartModel, a: StartAction) -> bool {
    &&& post == done(pre)
    &&& if pre.used_cache && !connect::version_ok(version, pre.ignore_version) {
        fails(a, connect::version_text(version), false)
    } else {
        a == StartAction::Ready
    }
}

/// What an event does to the startup of a tunnel.
pub open spec fn start_effect(
    pre: StartModel,
    event: StartEvent,
    post: StartModel,
    a: StartAction,
) -> bool {
    match (pre.phase, event) {
        (StartPhase::Done, _) => post == pre && a == StartAction::Nothing,
        (_, StartEvent::Failed(why)) => post == done(pre) && fails(a, why@, false),
        (StartPhase::Locking, StartEvent::LockAcquired { cached }) => match cached_socket(
            text::owned_view(cached),
        ) {
            Some(sock) => {
                &&& post == StartModel {
                    phase: StartPhase::Spawning,
                    used_cache: true,
                    remote_sock: sock,
                    ..pre
                }
                &&& a == StartAction::Spawn
            },
            None => {
                &&& post == StartModel { phase: StartPhase::Ensuring, used_cache: false, ..pre }
                &&& a == StartAction::EnsureRemote
            },
        },
        (StartPhase::Locking, StartEvent::LockHeld { socket_up, pid }) => if socket_up {
            &&& post == done(StartModel { peer: pid, ..pre })
            &&& a matches StartAction::Leave { stdout, stderr } && stdout@ == pre.local_sock
                && stderr@ == tunnel_line("\x1b[32m"@, pre.name, " already running"@, pid)
        } else {
            &&& post == StartModel { peer: pid, phase: StartPhase::WaitingForPeer, ..pre }
            &&& a matches StartAction::WaitForPeer { stderr } && stderr@ == tunnel_line(
                "\x1b[2;33m"@,
                pre.name,
                " starting"@,
                pid,
            )
        },
        (StartPhase::WaitingForPeer, StartEvent::PeerReady) => {
            &&& post == done(pre)
            &&& a matches StartAction::Leave { stdout, stderr } && stdout@ == pre.local_sock
                && stderr@ == tunnel_line("\x1b[32m"@, pre.name, " ready"@, pre.peer)
        },
        (StartPhase::WaitingForPeer, StartEvent::PeerTimedOut(why)) => post == done(pre) && fails(
            a,
            "another tunnel-create for "@ + pre.name
                + " is in progress but its socket never came up: "@ + why@,
            false,
        ),
        (StartPhase::WaitingForPeer, StartEvent::PeerGone) => post == done(pre) && fails(
            a,
            "another tunnel-create for "@ + pre.name
                + " released its lock before the socket came up; retry this command"@,
            false,
        ),
        (StartPhase::Ensuring, StartEvent::Ensured { sock, version }) => if version is Some
            && !connect::version_ok(version->0, pre.ignore_version) {
            post == done(pre) && fails(a, connect::version_text(version->0), false)
        } else {
            &&& post == StartModel { phase: StartPhase::Spawning, remote_sock: sock@, ..pre }
            &&& a == StartAction::Spawn
        },
        (StartPhase::Spawning, StartEvent::Spawned) => {
            &&& post == StartModel { phase: StartPhase::WaitingForSocket, ..pre }
            &&& a == StartAction::WaitForSocket
        },
        (StartPhase::WaitingForSocket, StartEvent::SocketUp) => {
            &&& post == StartModel { phase: StartPhase::Probing, ..pre }
            &&& a == StartAction::Probe
        },
        (StartPhase::WaitingForSocket, StartEvent::SocketTimedOut) => post == done(pre) && fails(
            a,
            "ssh is running but never bound the -L forward\n  to diagnose: "@ + pre.advice,
            false,
        ),
        (StartPhase::WaitingForSocket, StartEvent::ChildExited(status)) => post == done(pre)
            && fails(
            a,
            "ssh tunnel exited ("@ + status@ + ")\n  to diagnose: "@ + pre.advice,
            false,
        ),
        (StartPhase::Probing, StartEvent::Probed(Ok(v))) => probed(pre, v, post, a),
        (StartPhase::Probing, StartEvent::Probed(Err(why))) => if pre.used_cache {
            &&& post == StartModel { phase: StartPhase::EnsuringAgain, ..pre }
            &&& a == StartAction::EnsureRemote
        } else {
            post == done(pre) && fails(
                a,
                "tunnel forward bound but remote daemon is not responding: "@ + why@,
                false,
            )
        },
        (StartPhase::EnsuringAgain, StartEvent::Ensured { sock, version }) => if sock@
            != pre.remote_sock {
            post == done(pre) && fails(
                a,
                "cached remote socket path is stale ("@ + pre.remote_sock + " -> "@ + sock@
                    + "); retry"@,
                true,
            )
        } else {
            &&& post == StartModel { phase: StartPhase::ProbingAgain, ..pre }
            &&& a == StartAction::Probe
        },
        (StartPhase::ProbingAgain, StartEvent::Probed(Ok(v))) => probed(pre, v, post, a),
        (StartPhase::ProbingAgain, StartEvent::Probed(Err(why))) => post == done(pre) && fails(
            a,
            "remote daemon unreachable after start: "@ + why@,
            false,
        ),
        _ => post == pre && a == StartAction::Nothing,
    }
}

fn fail(message: String) -> (a: StartAction)
    ensures
        fails(a, message@, false),
{
    StartAction::Fail { message, forget_cache: false }
}

/// The state before the lock is taken.
pub open spec fn setting_up(
    name: Seq<char>,
    local_sock: Seq<char>,
    ignore_version: bool,
    advice: Seq<char>,
) -> StartModel {
    StartModel {
        phase: StartPhase::Locking,
        name,
        local_sock,
        peer: None,
        used_cache: false,
        remote_sock: Seq::<char>::empty(),
        ignore_version,
        advice,
    }
}

impl Startup {
    pub fn new(name: &str, local_sock: &str, ignore_version: bool, advice: &str) -> (s: Startup)
        ensures
            s@ == setting_up(name@, local_sock@, ignore_version, advice@),
    {
        Startup {
            phase: StartPhase::Locking,
            name: copy(name),
            local_sock: copy(local_sock),
            peer: None,
            used_cache: false,
            remote_sock: String::new(),
            ignore_version,
            advice: copy(advice),
        }
    }

    fn gate(&mut self, version: u16) -> (a: StartAction)
        ensures
            probed(old(self)@, version, final(self)@, a),
    {
        self.phase = StartPhase::Done;
        if self.used_cache {
            match check_remote_protocol_version(version, self.ignore_version) {
                Err(e) => {
                    return fail(e);
                },
                Ok(()) => {},
            }
        }
        StartAction::Ready
    }

    /// React to the outcome of a step.
    pub fn step(&mut self, event: StartEvent) -> (a: StartAction)
        ensures
            start_effect(old(self)@, event, final(self)@, a),
    {
        if self.phase == StartPhase::Done {
            return StartAction::Nothing;
        }
        let event = match event {
            StartEvent::Failed(why) => {
                self.phase = StartPhase::Done;
                return fail(why);
            },
            e => e,
        };
        match self.phase {
            StartPhase::Locking => match event {
                StartEvent::LockAcquired { cached } => {
                    let sock = match cached {
                        Some(c) => trim(c.as_str()),
                        None => String::new(),
                    };
                    if sock.as_str().is_empty() {
                        self.phase = StartPhase::Ensuring;
                        self.used_cache = false;
                        StartAction::EnsureRemote
                    } else {
                        self.phase = StartPhase::Spawning;
                        self.used_cache = true;
                        self.remote_sock = sock;
                        StartAction::Spawn
                    }
                },
                StartEvent::LockHeld { socket_up, pid } => {
                    self.peer = pid;
                    if socket_up {
                        self.phase = StartPhase::Done;
                        StartAction::Leave {
                            stdout: self.local_sock.clone(),
                            stderr: tunnel_note(
                                "\x1b[32m",
                                self.name.as_str(),
                                " already running",
                                pid,
                            ),
                        }
                    } else {
                        self.phase = StartPhase::WaitingForPeer;
                        StartAction::WaitForPeer {
                            stderr: tunnel_note("\x1b[2;33m", self.name.as_str(), " starting", pid),
                        }
                    }
                },
                _ => StartAction::Nothing,
            },
            StartPhase::WaitingForPeer => match event {
                StartEvent::PeerReady => {
                    self.phase = StartPhase::Done;
                    StartAction::Leave {
                        stdout: self.local_sock.clone(),
                        stderr: tunnel_note("\x1b[32m", self.name.as_str(), " ready", self.peer),
                    }
                },
                StartEvent::PeerTimedOut(why) => {
                    self.phase = StartPhase::Done;
                    fail(
                        cat4(
                            "another tunnel-create for ",
                            self.name.as_str(),
                            " is in progress but its socket never came up: ",
                            why.as_str(),
                        ),
                    )
                },
                StartEvent::PeerGone => {
                    self.phase = StartPhase::Done;
                    fail(
                        cat3(
                            "another tunnel-create for ",
                            self.name.as_str(),
                            " released its lock before the socket came up; retry this command",
                        ),
                    )
                },
                _ => StartAction::Nothing,
            },
            StartPhase::Ensuring => match event {
                StartEvent::Ensured { sock, version } => {
                    match version {
                        Some(v) => match check_remote_protocol_version(v, self.ignore_version) {
                            Err(e) => {
                                self.phase = StartPhase::Done;
                                return fail(e);
                            },
                            Ok(()) => {},
                        },
                        None => {},
                    }
                    self.phase = StartPhase::Spawning;
                    self.remote_sock = sock;
                    StartAction::Spawn
                },
                _ => StartAction::Nothing,
            },
            StartPhase::Spawning => match event {
                StartEvent::Spawned => {
                    self.phase = StartPhase::WaitingForSocket;
                    StartAction::WaitForSocket
                },
                _ => StartAction::Nothing,
            },
            StartPhase::WaitingForSocket => match event {
                StartEvent::SocketUp => {
                    self.phase = StartPhase::Probing;
                    StartAction::Probe
                },
                StartEvent::SocketTimedOut => {
                    self.phase = StartPhase::Done;
                    fail(
                        cat2(
                            "ssh is running but never bound the -L forward\n  to diagnose: ",
                            self.advice.as_str(),
                        ),
                    )
                },
                StartEvent::ChildExited(status) => {
                    self.phase = StartPhase::Done;
                    fail(
                        cat4(
                            "ssh tunnel exited (",
                            status.as_str(),
                            ")\n  to diagnose: ",
                            self.advice.as_str(),
                        ),
                    )
                },
                _ => StartAction::Nothing,
            },
            StartPhase::Probing => match event {
                StartEvent::Probed(outcome) => match outcome {
                    Ok(v) => self.gate(v),
                    Err(why) => {
                        if self.used_cache {
                            self.phase = StartPhase::EnsuringAgain;
                            StartAction::EnsureRemote
                        } else {
                            self.phase = StartPhase::Done;
                            fail(
                                cat2(
                                    "tunnel forward bound but remote daemon is not responding: ",
                                    why.as_str(),
                                ),
                            )
                        }
                    },
                },
                _ => StartAction::Nothing,
            },
            StartPhase::EnsuringAgain => match event {
                StartEvent::Ensured { sock, .. } => {
                    if same(sock.as_str(), self.remote_sock.as_str()) {
                        self.phase = StartPhase::ProbingAgain;
                        StartAction::Probe
                    } else {
                        self.phase = StartPhase::Done;
                        StartAction::Fail {
                            message: cat5(
                                "cached remote socket path is stale (",
                                self.remote_sock.as_str(),
                                " -> ",
                                sock.as_str(),
                                "); retry",
                            ),
                            forget_cache: true,
                        }
                    }
                },
                _ => StartAction::Nothing,
            },
            StartPhase::ProbingAgain => match event {
                StartEvent::Probed(outcome) => match outcome {
                    Ok(v) => self.gate(v),
                    Err(why) => {
                        self.phase = StartPhase::Done;
                        fail(cat2("remote daemon unreachable after start: ", why.as_str()))
                    },
                },
                _ => StartAction::Nothing,
            },
            StartPhase::Done => StartAction::Nothing,
        }
    }
}

/// A tunnel to a server of another version never comes up unless that was
/// asked for: neither where the version is reported, nor where the remembered
/// socket skipped that report.
pub proof fn law_version_gate_on_both_paths(
    pre: StartModel,
    event: StartEvent,
    post: StartModel,
    a: StartAction,
)
    requires
        start_effect(pre, event, post, a),
        !pre.ignore_version,
    ensures
        a == StartAction::Ready ==> {
            &&& event matches StartEvent::Probed(Ok(v)) && (pre.used_cache ==> v
                == crate::protocol::PROTOCOL_VERSION)
            &&& pre.phase is Probing || pre.phase is ProbingAgain
        },
        pre.phase is Ensuring && a == StartAction::Spawn ==> {
            event matches StartEvent::Ensured { sock, version } && (version is Some ==> version->0
                == crate::protocol::PROTOCOL_VERSION)
        },
{
}

/// A startup that ended does nothing more.
pub proof fn law_done_stays_done(
    pre: StartModel,
    event: StartEvent,
    post: StartModel,
    a: StartAction,
)
    requires
        start_effect(pre, event, post, a),
        pre.phase is Done,
    ensures
        post == pre,
        a == StartAction::Nothing,
{
}

/// One step of the startup.
pub struct StartStep {
    pub pre: StartModel,
    pub event: StartEvent,
    pub post: StartModel,
    pub action: StartAction,
}

/// Whether an event is the outcome of what was last to be done; the first
/// thing to do is to take the lock. Any step may fail for a reason of its own.
pub open spec fn is_outcome(run: Seq<StartStep>, event: StartEvent) -> bool {
    if run.len() == 0 {
        event is LockAcquired || event is LockHeld || event is Failed
    } else {
        match run.last().action {
            StartAction::WaitForPeer { .. } => event is PeerReady || event is PeerTimedOut
                || event is PeerGone || event is Failed,
            StartAction::EnsureRemote => event is Ensured || event is Failed,
            StartAction::Spawn => event is Spawned || event is Failed,
            StartAction::WaitForSocket => event is SocketUp || event is SocketTimedOut
                || event is ChildExited || event is Failed,
            StartAction::Probe => event is Probed || event is Failed,
            _ => false,
        }
    }
}

/// Whether these are the steps of a startup, from the lock on.
pub open spec fn is_startup(start: StartModel, run: Seq<StartStep>) -> bool
    decreases run.len(),
{
    run.len() == 0 || {
        let before = run.drop_last();
        let t = run.last();
        &&& is_startup(start, before)
        &&& start_effect(t.pre, t.event, t.post, t.action)
        &&& is_outcome(before, t.event)
        &&& t.pre == (if before.len() == 0 {
            start
        } else {
            before.last().post
        })
    }
}

/// The remote socket that was remembered from an earlier startup.
pub open spec fn remembered(run: Seq<StartStep>) -> Option<Seq<char>>
    decreases run.len(),
{
    if run.len() == 0 {
        None
    } else {
        match run.last().event {
            StartEvent::LockAcquired { cached: Some(c) } => if text::trimmed(c@).len() > 0 {
                Some(text::trimmed(c@))
            } else {
                None
            },
            _ => remembered(run.drop_last()),
        }
    }
}

/// The remote socket that was told last.
pub open spec fn told(run: Seq<StartStep>) -> Option<Seq<char>>
    decreases run.len(),
{
    if run.len() == 0 {
        None
    } else {
        match run.last().event {
            StartEvent::Ensured { sock, .. } => Some(sock@),
            _ => told(run.drop_last()),
        }
    }
}

/// Whether ssh was started.
pub open spec fn has_spawned(run: Seq<StartStep>) -> bool
    decreases run.len(),
{
    run.len() > 0 && (run.last().action is Spawn || has_spawned(run.drop_last()))
}

proof fn lemma_startup(start: StartModel, run: Seq<StartStep>)
    requires
        is_startup(start, run),
        run.len() > 0,
        start.phase is Locking,
        !start.used_cache,
    ensures
        ({
            let m = run.last().post;
            &&& m.local_sock == start.local_sock && m.name == start.name && m.ignore_version
                == start.ignore_version
            &&& m.used_cache == (remembered(run) is Some)
            &&& has_spawned(run) && !(m.phase is Done) ==> Some(m.remote_sock) == (if remembered(
                run,
            ) is Some {
                remembered(run)
            } else {
                told(run)
            })
            &&& m.phase == match run.last().action {
                StartAction::WaitForPeer { .. } => StartPhase::WaitingForPeer,
                StartAction::EnsureRemote => if has_spawned(run) {
                    StartPhase::EnsuringAgain
                } else {
                    StartPhase::Ensuring
                },
                StartAction::Spawn => StartPhase::Spawning,
                StartAction::WaitForSocket => StartPhase::WaitingForSocket,
                StartAction::Probe => if run.last().event is Ensured {
                    StartPhase::ProbingAgain
                } else {
                    StartPhase::Probing
                },
                _ => StartPhase::Done,
            }
            &&& !(run.last().action is Nothing)
            &&& m.phase is WaitingForPeer || m.phase is Ensuring ==> remembered(run) is None && told(
                run,
            ) is None && !has_spawned(run)
            &&& m.phase is Spawning || m.phase is WaitingForSocket || m.phase is Probing
                || m.phase is EnsuringAgain || m.phase is ProbingAgain ==> has_spawned(run)
            &&& m.phase is EnsuringAgain || m.phase is ProbingAgain ==> remembered(run) is Some
            &&& m.phase is Spawning || m.phase is WaitingForSocket || m.phase is Probing
                || m.phase is EnsuringAgain ==> (remembered(run) is Some <==> told(run) is None)
        }),
    decreases run.len(),
{
    reveal_with_fuel(remembered, 2);
    reveal_with_fuel(told, 2);
    reveal_with_fuel(has_spawned, 2);
    if run.len() > 1 {
        lemma_startup(start, run.drop_last());
    }
}

/// A tunnel comes up once its socket takes connections and the server behind
/// it answers. Which socket it leads to is remembered from the last time, or
/// asked for; a remembered one that does not answer is asked for once more,
/// and forgotten where it has moved. Where another process already runs the
/// tunnel, its socket is handed on instead.
pub proof fn law_tunnels_come_up(
    name: Seq<char>,
    local_sock: Seq<char>,
    ignore_version: bool,
    advice: Seq<char>,
    run: Seq<StartStep>,
)
    requires
        is_startup(setting_up(name, local_sock, ignore_version, advice), run),
        run.len() > 0,
    ensures
        ({
            let before = run.drop_last();
            let a = run.last().action;
            let first_answer = before.len() > 0 && !(before.last().event is Ensured);
            match run.last().event {
                StartEvent::LockAcquired { .. } => if remembered(run) is Some {
                    a is Spawn
                } else {
                    a is EnsureRemote
                },
                StartEvent::LockHeld { socket_up, .. } => if socket_up {
                    a is Leave && a->stdout@ == local_sock
                } else {
                    a is WaitForPeer
                },
                StartEvent::PeerReady => a is Leave && a->stdout@ == local_sock,
                StartEvent::Ensured { sock, version } => if has_spawned(before) {
                    if remembered(before) == Some(sock@) {
                        a is Probe
                    } else {
                        a is Fail && a->forget_cache
                    }
                } else if version is Some && version != Some(crate::protocol::PROTOCOL_VERSION)
                    && !ignore_version {
                    a is Fail && !a->forget_cache
                } else {
                    a is Spawn && run.last().post.remote_sock == sock@
                },
                StartEvent::Spawned => a is WaitForSocket,
                StartEvent::SocketUp => a is Probe,
                StartEvent::Probed(Ok(v)) => if remembered(before) is Some && v
                    != crate::protocol::PROTOCOL_VERSION && !ignore_version {
                    a is Fail && !a->forget_cache
                } else {
                    &&& a is Ready
                    &&& Some(run.last().post.remote_sock) == (if remembered(before) is Some {
                        remembered(before)
                    } else {
                        told(before)
                    })
                },
                StartEvent::Probed(Err(_)) => if remembered(before) is Some && first_answer {
                    a is EnsureRemote
                } else {
                    a is Fail && !a->forget_cache
                },
                StartEvent::Failed(why) => a is Fail && a->message@ == why@ && !a->forget_cache,
                _ => a is Fail && !a->forget_cache,
            }
        }),
{
    let start = setting_up(name, local_sock, ignore_version, advice);
    reveal_with_fuel(remembered, 2);
    reveal_with_fuel(told, 2);
    reveal_with_fuel(has_spawned, 2);
    if run.len() > 1 {
        lemma_startup(start, run.drop_last());
    }
}

/// What is recorded of the command line's ssh options: nothing if there are
/// none, else one per line.
pub fn options_file(cli_ssh_options: &Vec<String>) -> (r: Option<String>)
    ensures
        r is None <==> cli_ssh_options@.len() == 0,
        r matches Some(c) ==> c@ == text::join(text::views(cli_ssh_options@), "\n"@),
{
    if cli_ssh_options.len() == 0 {
        None
    } else {
        Some(join_texts(cli_ssh_options, "\n"))
    }
}

/// What a restart replays is what the command line said: the options come back
/// from their file, if each of them is a line of its own.
pub proof fn law_options_are_replayed(opts: Seq<Seq<char>>)
    requires
        forall|i: int|
            0 <= i < opts.len() ==> (#[trigger] opts[i]).len() > 0 && !opts[i].contains('\n')
                && opts[i].last() != '\r',
    ensures
        connect::filled_lines(text::lines(text::join(opts, "\n"@))) == opts,
{
    text::lemma_lines_of_join(opts);
    lemma_all_filled(opts);
}

proof fn lemma_all_filled(lines: Seq<Seq<char>>)
    requires
        forall|i: int| 0 <= i < lines.len() ==> (#[trigger] lines[i]).len() > 0,
    ensures
        connect::filled_lines(lines) == lines,
    decreases lines.len(),
{
    if lines.len() > 0 {
        assert forall|i: int| 0 <= i < lines.drop_last().len() implies (
        #[trigger] lines.drop_last()[i]).len() > 0 by {
            assert(lines.drop_last()[i] == lines[i]);
        }
        lemma_all_filled(lines.drop_last());
        assert(lines.last() == lines[lines.len() - 1]);
        assert(lines.drop_last().push(lines.last()) == lines);
    }
}

/// What taking a tunnel down is in the middle of.
#[derive(Debug, Clone, Copy, PartialEq, Eq, Structural)]
pub enum StopPhase {
    Sweeping,
    ReadingPid,
    Polling { pid: i32 },
    Killed,
    Done,
}

/// How long a tunnel has to end by itself, in milliseconds.
pub const STOP_GRACE: u64 = 2000;

/// Taking a tunnel down.
pub struct Stopping {
    pub phase: StopPhase,
    pub name: String,
}

pub enum StopEvent {
    /// The files of the tunnel were removed, which only works while nobody
    /// holds its lock, or they were not. `elapsed` counts from the request to
    /// end.
    Swept { cleaned: bool, elapsed: u64 },
    /// What the pid file holds.
    PidFile(Option<String>),
}

pub enum StopAction {
    Nothing,
    /// Done: print this.
    Finish { stderr: String },
    ReadPid,
    Fail { message: String },
    /// Ask the process to end, then sweep every tenth of a second.
    Terminate { pid: i32 },
    SweepAgain,
    /// If the lock is still held, kill the process and its group; then sweep
    /// once more.
    Kill { pid: i32 },
}

pub open spec fn stop_effect(
    phase: StopPhase,
    name: Seq<char>,
    event: StopEvent,
    post: StopPhase,
    a: StopAction,
) -> bool {
    match (phase, event) {
        (StopPhase::Sweeping, StopEvent::Swept { cleaned, elapsed }) => if cleaned {
            &&& post == StopPhase::Done
            &&& a matches StopAction::Finish { stderr } && stderr@ == tunnel_line(
                "\x1b[2;33m"@,
                name,
                " already stopped"@,
                None,
            )
        } else {
            post == StopPhase::ReadingPid && a == StopAction::ReadPid
        },
        (StopPhase::ReadingPid, StopEvent::PidFile(contents)) => {
            let n = match contents {
                Some(c) => text::unsigned(text::trimmed(c@)),
                None => None,
            };
            if n is Some && n->0 <= u32::MAX {
                let pid = (n->0 as u32) as i32;
                post == StopPhase::Polling { pid } && a == StopAction::Terminate { pid }
            } else {
                &&& post == StopPhase::Done
                &&& a matches StopAction::Fail { message } && message@
                    == "cannot read PID for tunnel "@ + name
            }
        },
        (StopPhase::Polling { pid }, StopEvent::Swept { cleaned, elapsed }) => if cleaned {
            &&& post == StopPhase::Done
            &&& a matches StopAction::Finish { stderr } && stderr@ == tunnel_line(
                "\x1b[32m"@,
                name,
                " stopped"@,
                None,
            )
        } else if elapsed >= STOP_GRACE {
            post == StopPhase::Killed && a == StopAction::Kill { pid }
        } else {
            post == phase && a == StopAction::SweepAgain
        },
        (StopPhase::Killed, StopEvent::Swept { cleaned, elapsed }) => {
            &&& post == StopPhase::Done
            &&& a matches StopAction::Finish { stderr } && stderr@ == if cleaned {
                tunnel_line("\x1b[32m"@, name, " killed"@, None)
            } else {
                tunnel_line(
                    "\x1b[33m"@,
                    name,
                    " still holding its lock after SIGKILL; files left in place"@,
                    None,
                )
            }
        },
        _ => post == phase && a == StopAction::Nothing,
    }
}

impl Stopping {
    /// Start taking the tunnel `name` down, if that can be a name.
    pub fn new(name: &str) -> (r: Result<Stopping, NameError>)
        ensures
            match connect::name_error(name@) {
                Some(e) => r == Err::<Stopping, NameError>(e),
                None => r matches Ok(s) && s.phase == StopPhase::Sweeping && s.name@ == name@,
            },
    {
        match validate_connection_name(name) {
            Err(e) => Err(e),
            Ok(()) => Ok(Stopping { phase: StopPhase::Sweeping, name: copy(name) }),
        }
    }

    /// React to the outcome of a step.
    pub fn step(&mut self, event: StopEvent) -> (a: StopAction)
        ensures
            final(self).name@ == old(self).name@,
            stop_effect(old(self).phase, old(self).name@, event, final(self).phase, a),
    {
        match self.phase {
            StopPhase::Sweeping => match event {
                StopEvent::Swept { cleaned, .. } => {
                    if cleaned {
                        self.phase = StopPhase::Done;
                        StopAction::Finish {
                            stderr: tunnel_note(
                                "\x1b[2;33m",
                                self.name.as_str(),
                                " already stopped",
                                None,
                            ),
                        }
                    } else {
                        self.phase = StopPhase::ReadingPid;
                        StopAction::ReadPid
                    }
                },
                _ => StopAction::Nothing,
            },
            StopPhase::ReadingPid => match event {
                StopEvent::PidFile(contents) => {
                    let hint: Option<u32> = match contents {
                        Some(c) => read_pid_hint(c.as_str()),
                        None => None,
                    };
                    match hint {
                        Some(n) => {
                            let pid: i32 = n as i32;
                            self.phase = StopPhase::Polling { pid };
                            StopAction::Terminate { pid }
                        },
                        None => {
                            self.phase = StopPhase::Done;
                            StopAction::Fail {
                                message: cat2("cannot read PID for tunnel ", self.name.as_str()),
                            }
                        },
                    }
                },
                _ => StopAction::Nothing,
            },
            StopPhase::Polling { pid } => match event {
                StopEvent::Swept { cleaned, elapsed } => {
                    if cleaned {
                        self.phase = StopPhase::Done;
                        StopAction::Finish {
                            stderr: tunnel_note("\x1b[32m", self.name.as_str(), " stopped", None),
                        }
                    } else if elapsed >= STOP_GRACE {
                        self.phase = StopPhase::Killed;
                        StopAction::Kill { pid }
                    } else {
                        StopAction::SweepAgain
                    }
                },
                _ => StopAction::Nothing,
            },
            StopPhase::Killed => match event {
                StopEvent::Swept { cleaned, .. } => {
                    self.phase = StopPhase::Done;
                    let stderr = if cleaned {
                        tunnel_note("\x1b[32m", self.name.as_str(), " killed", None)
                    } else {
                        tunnel_note(
                            "\x1b[33m",
                            self.name.as_str(),
                            " still holding its lock after SIGKILL; files left in place",
                            None,
                        )
                    };
                    StopAction::Finish { stderr }
                },
                _ => StopAction::Nothing,
            },
            StopPhase::Done => StopAction::Nothing,
        }
    }
}

/// One step of taking a tunnel down.
pub struct StopStep {
    pub pre: StopPhase,
    pub event: StopEvent,
    pub post: StopPhase,
    pub action: StopAction,
}

/// Whether these are the steps of taking a tunnel down, from the first sweep
/// on, each the outcome of what was last to be done.
pub open spec fn is_stop(name: Seq<char>, run: Seq<StopStep>) -> bool
    decreases run.len(),
{
    run.len() == 0 || {
        let before = run.drop_last();
        let t = run.last();
        &&& is_stop(name, before)
        &&& stop_effect(t.pre, name, t.event, t.post, t.action)
        &&& if before.len() == 0 {
            t.pre is Sweeping && t.event is Swept
        } else {
            &&& t.pre == before.last().post
            &&& match before.last().action {
                StopAction::ReadPid => t.event is PidFile,
                StopAction::Terminate { .. } => t.event is Swept,
                StopAction::SweepAgain => t.event is Swept,
                StopAction::Kill { .. } => t.event is Swept,
                _ => false,
            }
        }
    }
}

/// The process that was asked to end.
pub open spec fn asked_to_end(run: Seq<StopStep>) -> Option<i32>
    decreases run.len(),
{
    if run.len() == 0 {
        None
    } else {
        match run.last().action {
            StopAction::Terminate { pid } => Some(pid),
            _ => asked_to_end(run.drop_last()),
        }
    }
}

proof fn lemma_stop(name: Seq<char>, run: Seq<StopStep>)
    requires
        is_stop(name, run),
        run.len() > 0,
    ensures
        match run.last().action {
            StopAction::ReadPid => run.last().post is ReadingPid && asked_to_end(run) is None,
            StopAction::Terminate { pid } => run.last().post == (StopPhase::Polling { pid })
                && asked_to_end(run) == Some(pid),
            StopAction::SweepAgain => run.last().post is Polling && asked_to_end(run) == Some(
                run.last().post->pid,
            ),
            StopAction::Kill { pid } => run.last().post is Killed && asked_to_end(run) == Some(pid),
            StopAction::Nothing => false,
            _ => run.last().post is Done,
        },
    decreases run.len(),
{
    reveal_with_fuel(asked_to_end, 2);
    if run.len() > 1 {
        lemma_stop(name, run.drop_last());
    }
}

/// Taking a tunnel down ends once its files can be removed. Until then its
/// process is asked to end, once, and killed only after two seconds: the very
/// process that its pid file names.
pub proof fn law_tunnels_are_taken_down(name: Seq<char>, run: Seq<StopStep>)
    requires
        is_stop(name, run),
        run.len() > 0,
    ensures
        ({
            let before = run.drop_last();
            let a = run.last().action;
            match run.last().event {
                StopEvent::Swept { cleaned, elapsed } => {
                    &&& cleaned ==> a is Finish
                    &&& !cleaned && before.len() == 0 ==> a is ReadPid
                    &&& !cleaned && before.len() > 0 && before.last().action is Kill ==> a is Finish
                    &&& !cleaned && before.len() > 0 && !(before.last().action is Kill) ==> {
                        &&& elapsed < 2000 ==> a is SweepAgain
                        &&& elapsed >= 2000 ==> a is Kill && asked_to_end(before) == Some(
                            a->Kill_pid,
                        )
                    }
                },
                StopEvent::PidFile(contents) => {
                    &&& a is Terminate || a is Fail
                    &&& contents is None ==> a is Fail
                    &&& forall|n: nat|
                        n <= i32::MAX && contents is Some && contents->0@ == #[trigger] text::decimal(
                            n,
                        ) ==> a is Terminate && a->Terminate_pid == n
                },
            }
        }),
{
    if run.len() > 1 {
        lemma_stop(name, run.drop_last());
    }
    if let StopEvent::PidFile(Some(c)) = run.last().event {
        assert forall|n: nat| n <= i32::MAX && c@ == #[trigger] text::decimal(n) implies
            run.last().action is Terminate && run.last().action->Terminate_pid == n by {
            text::law_decimal_round_trip(n);
            let d = text::decimal(n);
            assert(text::is_digit_char(d[0]) && text::is_digit_char(d.last()));
            assert(text::trimmed(d) == d);
        }
    }
}

} // verus!
