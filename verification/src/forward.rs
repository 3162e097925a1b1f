//! Port forwards: reading what the user asks for, finding the attached client
//! that carries it, and what is said about the outcome.

use vstd::prelude::*;
use crate::client;
use crate::client::parse_forward_socket_name;
use crate::config;
use crate::config::ConfigFile;
use crate::naming;
use crate::naming::{display_session_name, resolve_session_name};
use crate::order;
use crate::order::{sort_by_keys, SortKey};
use crate::paths;
use crate::paths::{join_path, parent_of};
use crate::protocol::{SessionEntry, FWD_ERR_BIND_PREFIX, FWD_ERR_SERVER_BIND};
use crate::target;
use crate::target::{parse_target, resolve_ctl_path};
use crate::text;
use crate::text::{
    cat2,
    cat3,
    cat4,
    cat5,
    cat6,
    cat7,
    contains,
    copy,
    cut_at,
    decimal_text,
    has_char,
    join_texts,
    lower,
    parse_unsigned,
    same,
};

verus! {

/// A port that a text spells, or what is wrong with it: the port must not be
/// zero, since the one that would be picked could not be told.
pub open spec fn port_field(field: Seq<char>, value: Seq<char>) -> Result<u16, Seq<char>> {
    match text::unsigned(value) {
        Some(n) => if n > u16::MAX {
            Err("invalid "@ + field + ": "@ + value)
        } else if n == 0 {
            Err(field + " must not be 0 (ephemeral ports are not supported)"@)
        } else {
            Ok(n as u16)
        },
        None => Err("invalid "@ + field + ": "@ + value),
    }
}

pub open spec fn error_view<T>(r: Result<T, String>) -> Result<T, Seq<char>> {
    match r {
        Ok(v) => Ok(v),
        Err(e) => Err(e@),
    }
}

fn read_port(field: &str, value: &str) -> (r: Result<u16, String>)
    ensures
        error_view(r) == port_field(field@, value@),
{
    match parse_unsigned(value, 65535) {
        Some(n) => {
            if n == 0 {
                Err(cat2(field, " must not be 0 (ephemeral ports are not supported)"))
            } else {
                Ok(n as u16)
            }
        },
        None => Err(cat4("invalid ", field, ": ", value)),
    }
}

/// The port to listen on and the port to reach: one number stands for both.
pub open spec fn port_spec(spec: Seq<char>) -> Result<(u16, u16), Seq<char>> {
    if spec.contains(':') {
        let k = text::first_index(spec, ':');
        match port_field("listen port"@, spec.take(k)) {
            Err(e) => Err(e),
            Ok(a) => match port_field("target port"@, spec.skip(k + 1)) {
                Err(e) => Err(e),
                Ok(b) => Ok((a, b)),
            },
        }
    } else {
        match port_field("port"@, spec) {
            Err(e) => Err(e),
            Ok(p) => Ok((p, p)),
        }
    }
}

/// Read `PORT` or `LISTEN:TARGET`.
pub fn parse_port_spec(spec: &str) -> (r: Result<(u16, u16), String>)
    ensures
        error_view(r) == port_spec(spec@),
{
    match cut_at(spec, ':') {
        Some((a, b)) => match read_port("listen port", a.as_str()) {
            Err(e) => Err(e),
            Ok(listen) => match read_port("target port", b.as_str()) {
                Err(e) => Err(e),
                Ok(to) => Ok((listen, to)),
            },
        },
        None => match read_port("port", spec) {
            Err(e) => Err(e),
            Ok(p) => Ok((p, p)),
        },
    }
}

pub open spec fn usage_text(alias: Seq<char>) -> Seq<char> {
    "usage: gritty "@ + alias + " [host[:session]] <PORT|LISTEN:TARGET>"@
}

/// How the forwarding commands are used.
pub fn forward_usage(alias: &str) -> (r: String)
    ensures
        r@ == usage_text(alias@),
{
    cat3("usage: gritty ", alias, " [host[:session]] <PORT|LISTEN:TARGET>")
}

/// Tell the arguments of a forwarding command apart: with one it is the port,
/// and the target is to be found.
pub fn forward_args(
    alias: &str,
    target: Option<String>,
    port: Option<String>,
) -> (r: Result<(Option<String>, String), String>)
    ensures
        match (target, port) {
            (Some(t), Some(p)) => r matches Ok(v) && v.0 == Some(t) && v.1 == p,
            (Some(p), None) => r matches Ok(v) && v.0 is None && v.1 == p,
            (None, _) => r matches Err(e) && e@ == usage_text(alias@),
        },
{
    match target {
        Some(t) => match port {
            Some(p) => Ok((Some(t), p)),
            None => Ok((None, t)),
        },
        None => Err(forward_usage(alias)),
    }
}

pub open spec fn session_hint(in_session: bool) -> Seq<char> {
    if in_session {
        "\nhint: you're inside a gritty session -- run port forwards from the machine running `gritty connect`, not from inside the session"@
    } else {
        ""@
    }
}

/// What to add where no client is attached: inside a session there is none to
/// find.
pub fn in_session_hint(in_session: bool) -> (r: &'static str)
    ensures
        r@ == session_hint(in_session),
{
    if in_session {
        "\nhint: you're inside a gritty session -- run port forwards from the machine running `gritty connect`, not from inside the session"
    } else {
        ""
    }
}

/// Whether a message is about a port that could not be listened on.
pub open spec fn is_bind_failure(msg: Seq<char>) -> bool {
    text::has_text(msg, FWD_ERR_SERVER_BIND@) || text::has_text(msg, FWD_ERR_BIND_PREFIX@)
        || text::has_text(text::lowered(msg), "in use"@)
}

/// The port to suggest in place of one that is taken: the next, or the last
/// but one.
pub open spec fn other_port(port: u16) -> u16 {
    if port == u16::MAX {
        (port - 1) as u16
    } else {
        (port + 1) as u16
    }
}

pub open spec fn port_hint(listen_port: u16, target_port: u16) -> Seq<char> {
    "\nhint: the listen port may be busy -- pick a free one with LISTEN:TARGET, e.g. `"@
        + text::decimal(other_port(listen_port) as nat) + ":"@ + text::decimal(target_port as nat)
        + "`"@
}

/// What to add to a message about a port that is taken; nothing for any other
/// message.
pub fn busy_port_hint(msg: &str, listen_port: u16, target_port: u16) -> (r: Option<String>)
    ensures
        text::owned_view(r) == if is_bind_failure(msg@) {
            Some(port_hint(listen_port, target_port))
        } else {
            None
        },
{
    let small = lower(msg);
    if !(contains(msg, FWD_ERR_SERVER_BIND) || contains(msg, FWD_ERR_BIND_PREFIX) || contains(
        small.as_str(),
        "in use",
    )) {
        return None;
    }
    let alt: u16 = if listen_port == u16::MAX {
        listen_port - 1
    } else {
        listen_port + 1
    };
    let a = decimal_text(alt as u64);
    let b = decimal_text(target_port as u64);
    Some(
        cat5(
            "\nhint: the listen port may be busy -- pick a free one with LISTEN:TARGET, e.g. `",
            a.as_str(),
            ":",
            b.as_str(),
            "`",
        ),
    )
}

/// An attached client on this machine that can carry a forward.
pub struct ForwardCandidate {
    pub path: String,
    pub host: String,
    pub session_id: u32,
}

/// A client that can carry a forward, as a value.
pub struct Carrier {
    pub path: Seq<char>,
    pub host: Seq<char>,
    pub session_id: u32,
}

impl View for ForwardCandidate {
    type V = Carrier;

    open spec fn view(&self) -> Carrier {
        Carrier { path: self.path@, host: self.host@, session_id: self.session_id }
    }
}

pub open spec fn carriers(v: Seq<ForwardCandidate>) -> Seq<Carrier> {
    v.map_values(|c: ForwardCandidate| c@)
}

pub open spec fn fallback_label(c: Carrier) -> Seq<char> {
    c.host + " (session #"@ + text::decimal(c.session_id as nat) + ")"@
}

/// What a candidate is called when its server does not answer.
pub fn candidate_fallback_label(c: &ForwardCandidate) -> (r: String)
    ensures
        r@ == fallback_label(c@),
{
    let id = decimal_text(c.session_id as u64);
    cat4(c.host.as_str(), " (session #", id.as_str(), ")")
}

/// The name of the first listed session with a number.
pub open spec fn name_with_id(v: Seq<SessionEntry>, id: u32) -> Option<Seq<char>>
    decreases v.len(),
{
    if v.len() == 0 {
        None
    } else if v[0].id == id {
        Some(v[0].name@)
    } else {
        name_with_id(v.skip(1), id)
    }
}

/// What a candidate is called, given what its server lists.
pub open spec fn candidate_label(
    c: Carrier,
    sessions: Option<Seq<SessionEntry>>,
    client: Seq<char>,
) -> Seq<char> {
    match sessions {
        Some(v) => match name_with_id(v, c.session_id) {
            Some(name) => c.host + ":"@ + naming::shown_name(name, client),
            None => fallback_label(c),
        },
        None => fallback_label(c),
    }
}

/// What a candidate is called: a target that can be typed where its server
/// lists the session, else by its number.
pub fn forward_candidate_label(
    c: &ForwardCandidate,
    sessions: Option<&Vec<SessionEntry>>,
    client_name: &str,
) -> (r: String)
    ensures
        r@ == candidate_label(
            c@,
            match sessions {
                Some(v) => Some(v@),
                None => None,
            },
            client_name@,
        ),
{
    match sessions {
        None => candidate_fallback_label(c),
        Some(v) => {
            let mut i: usize = 0;
            assert(v@.skip(0) == v@);
            while i < v.len() && v[i].id != c.session_id
                invariant
                    i <= v@.len(),
                    name_with_id(v@, c.session_id) == name_with_id(
                        v@.skip(i as int),
                        c.session_id,
                    ),
                decreases v@.len() - i,
            {
                assert(v@.skip(i as int)[0] == v@[i as int]);
                assert(v@.skip(i as int).skip(1) == v@.skip(i + 1));
                i = i + 1;
            }
            if i < v.len() {
                assert(v@.skip(i as int)[0] == v@[i as int]);
                let name = display_session_name(v[i].name.as_str(), client_name);
                cat3(c.host.as_str(), ":", name.as_str())
            } else {
                candidate_fallback_label(c)
            }
        },
    }
}

/// A file of the socket directory: its name, and whether a connection to it
/// was taken.
pub struct FoundFile {
    pub name: String,
    pub alive: bool,
}

/// The live forward sockets among the files of a directory.
pub open spec fn live_carriers(dir: Seq<char>, files: Seq<FoundFile>) -> Seq<Carrier>
    decreases files.len(),
{
    if files.len() == 0 {
        seq![]
    } else {
        let rest = live_carriers(dir, files.drop_last());
        let f = files.last();
        match client::forward_socket_parts(f.name@) {
            Some((host, id)) => if f.alive {
                rest.push(
                    Carrier { path: paths::joined(dir, f.name@), host, session_id: id },
                )
            } else {
                rest
            },
            None => rest,
        }
    }
}

/// Candidates in the order of their paths.
pub open spec fn by_path(v: Seq<Carrier>) -> Seq<Carrier> {
    order::in_order(
        v,
        order::sort_order(v.map_values(|c: Carrier| order::Rank { rank: 0, text: c.path, number: 0 })),
    )
}

/// The live forward sockets among the files of a directory, in the order of
/// their paths. What a crashed client left behind is skipped.
pub fn live_forward_sockets(dir: &str, files: &Vec<FoundFile>) -> (r: Vec<ForwardCandidate>)
    ensures
        carriers(r@) == by_path(live_carriers(dir@, files@)),
{
    let mut live: Vec<ForwardCandidate> = Vec::new();
    let mut keys: Vec<SortKey> = Vec::new();
    let mut i: usize = 0;
    assert(files@.take(0) == Seq::<FoundFile>::empty());
    assert(carriers(live@) == Seq::<Carrier>::empty());
    while i < files.len()
        invariant
            i <= files@.len(),
            carriers(live@) == live_carriers(dir@, files@.take(i as int)),
            keys@.len() == live@.len(),
            forall|k: int|
                0 <= k < keys@.len() ==> (#[trigger] keys@[k])@ == (order::Rank {
                    rank: 0,
                    text: live@[k].path@,
                    number: 0,
                }),
        decreases files@.len() - i,
    {
        proof {
            assert(files@.take(i + 1).drop_last() == files@.take(i as int));
            assert(files@.take(i + 1).last() == files@[i as int]);
        }
        if let Some((host, session_id)) = parse_forward_socket_name(files[i].name.as_str()) {
            if files[i].alive {
                let path = join_path(dir, files[i].name.as_str());
                let ghost before = live@;
                keys.push(SortKey { rank: 0, text: copy(path.as_str()), number: 0 });
                let c = ForwardCandidate { path, host, session_id };
                let ghost cv = c@;
                live.push(c);
                assert(carriers(live@) == carriers(before).push(cv));
            }
        }
        i = i + 1;
    }
    assert(files@.take(i as int) == files@);
    let ghost all = live@;
    assert(order::ranks(keys@) == carriers(all).map_values(
        |c: Carrier| order::Rank { rank: 0, text: c.path, number: 0 },
    ));
    let (out, places) = sort_by_keys(live, &keys);
    assert(carriers(out@) == order::in_order(carriers(all), places@));
    out
}

/// A lone argument that is a port may also be the name of a host. Then nothing
/// is guessed.
pub fn ambiguous_host_guard(
    config: &ConfigFile,
    arg: &str,
    alias: &str,
    socket_exists: bool,
) -> (r: Result<(), String>)
    ensures
        r is Ok <==> (config::canonical(*config, arg@) == arg@ && !socket_exists),
        r matches Err(e) ==> e@ == "'"@ + arg@
            + "' is also a connection name -- pass an explicit port: gritty "@ + alias@ + " "@ + arg@
            + " <port>"@,
{
    let host = config.canonical_host(arg);
    if !same(host.as_str(), arg) || socket_exists {
        Err(
            cat7(
                "'",
                arg,
                "' is also a connection name -- pass an explicit port: gritty ",
                alias,
                " ",
                arg,
                " <port>",
            ),
        )
    } else {
        Ok(())
    }
}

/// The name of the command for a direction.
pub open spec fn command_of(direction: u8) -> Seq<char> {
    if direction == 0 {
        "lf"@
    } else {
        "rf"@
    }
}

/// The name of the command for a direction.
pub fn forward_alias(direction: u8) -> (r: &'static str)
    ensures
        r@ == command_of(direction),
{
    if direction == 0 {
        "lf"
    } else {
        "rf"
    }
}

/// How a forward is to be set up.
pub struct ForwardPlan {
    pub listen_port: u16,
    pub target_port: u16,
    pub via: ForwardVia,
}

/// Which client carries a forward.
pub enum ForwardVia {
    /// The one attached to this session of the server on this socket.
    Session { ctl_path: String, session: String, label: String },
    /// The only one whose socket is in this directory. `arg` is what was
    /// given as the port.
    Only { dir: String, arg: String },
}

/// The directory to look for clients in.
pub open spec fn client_dir(socket_dir: Seq<char>, ctl_socket: Option<Seq<char>>) -> Seq<char> {
    match ctl_socket {
        Some(p) => match paths::parent(p) {
            Some(d) => if d.len() > 0 {
                d
            } else {
                "."@
            },
            None => "."@,
        },
        None => socket_dir,
    }
}

/// The full name of the session that a forward is for: the first slot of the
/// client where none is named.
pub open spec fn forward_session(named: Option<Seq<char>>, client: Seq<char>) -> Seq<char> {
    naming::full_name(
        match named {
            Some(s) => s,
            None => "0"@,
        },
        client,
    )
}

/// Whether `p` is the plan for a forward on a machine with the client name
/// `own`.
pub open spec fn plans(
    p: ForwardPlan,
    c: ConfigFile,
    own: Seq<char>,
    socket_dir: Seq<char>,
    ctl_socket: Option<Seq<char>>,
    target: Option<Seq<char>>,
    port: Seq<char>,
) -> bool {
    &&& port_spec(port) == Ok::<(u16, u16), Seq<char>>((p.listen_port, p.target_port))
    &&& match target {
        Some(t) => {
            let (host, named) = target::aimed_at(c, t);
            let h = config::overrides(c, Some(host));
            let client = config::most_specific(config::set_client_name(h, c.defaults), None, own);
            let session = forward_session(named, client);
            &&& p.via is Session
            &&& Some(p.via->ctl_path@) == target::ctl_path_of(socket_dir, ctl_socket, Some(host))
            &&& p.via->session@ == session
            &&& p.via->label@ == host + ":"@ + naming::shown_name(session, client)
        },
        None => {
            &&& p.via is Only
            &&& p.via->dir@ == client_dir(socket_dir, ctl_socket)
            &&& p.via->arg@ == port
        },
    }
}

/// Plan a forward from the words of the command, on a machine with the client
/// name `own`.
pub fn plan_forward(
    config: &ConfigFile,
    own: &str,
    socket_dir: &str,
    ctl_socket: Option<String>,
    target: Option<String>,
    port: Option<String>,
    direction: u8,
) -> (r: Result<ForwardPlan, String>)
    ensures
        match (target, port) {
            (Some(t), Some(p)) => match port_spec(p@) {
                Ok(_) => r matches Ok(plan) && plans(
                    plan,
                    *config,
                    own@,
                    socket_dir@,
                    text::owned_view(ctl_socket),
                    Some(t@),
                    p@,
                ),
                Err(e) => r matches Err(m) && m@ == e + " ("@ + usage_text(command_of(direction))
                    + ")"@,
            },
            (Some(p), None) => match port_spec(p@) {
                Ok(_) => r matches Ok(plan) && plans(
                    plan,
                    *config,
                    own@,
                    socket_dir@,
                    text::owned_view(ctl_socket),
                    None,
                    p@,
                ),
                Err(e) => r matches Err(m) && m@ == e + " ("@ + usage_text(command_of(direction))
                    + ")"@,
            },
            (None, _) => r matches Err(m) && m@ == usage_text(command_of(direction)),
        },
{
    let alias = forward_alias(direction);
    let (target, port) = match forward_args(alias, target, port) {
        Ok(v) => v,
        Err(e) => {
            return Err(e);
        },
    };
    let (listen_port, target_port) = match parse_port_spec(port.as_str()) {
        Ok(v) => v,
        Err(e) => {
            let usage = forward_usage(alias);
            return Err(cat4(e.as_str(), " (", usage.as_str(), ")"));
        },
    };
    let via = match target {
        Some(t) => {
            let (host, named) = parse_target(config, t.as_str());
            let (settings, _) = config.resolve_session_for(Some(host.as_str()), own);
            let client = settings.client_name;
            let session = match named {
                Some(s) => resolve_session_name(s.as_str(), client.as_str()),
                None => resolve_session_name("0", client.as_str()),
            };
            let ctl_path = match resolve_ctl_path(socket_dir, ctl_socket, Some(host.as_str())) {
                Ok(p) => p,
                Err(e) => {
                    return Err(e);
                },
            };
            let display = display_session_name(session.as_str(), client.as_str());
            let label = cat3(host.as_str(), ":", display.as_str());
            ForwardVia::Session { ctl_path, session, label }
        },
        None => {
            let dir = match ctl_socket {
                Some(p) => match parent_of(p.as_str()) {
                    Some(d) => if d.as_str().unicode_len() > 0 {
                        d
                    } else {
                        copy(".")
                    },
                    None => copy("."),
                },
                None => copy(socket_dir),
            };
            ForwardVia::Only { dir, arg: port }
        },
    };
    Ok(ForwardPlan { listen_port, target_port, via })
}

/// The first label that can be typed as a target.
pub open spec fn typeable(labels: Seq<Seq<char>>) -> Seq<char>
    decreases labels.len(),
{
    if labels.len() == 0 {
        "<host:session>"@
    } else if labels[0].contains(':') {
        labels[0]
    } else {
        typeable(labels.skip(1))
    }
}

/// What is said where not exactly one client was found.
pub open spec fn choice_error(
    labels: Seq<Seq<char>>,
    direction: u8,
    arg: Seq<char>,
    in_session: bool,
) -> Seq<char> {
    if labels.len() == 0 {
        "no attached session found (port forwards need an attached `gritty connect` client)"@
            + session_hint(in_session)
    } else {
        "multiple attached sessions: "@ + text::join(labels, ", "@)
            + " -- specify a target, e.g. `gritty "@ + command_of(direction) + " "@ + typeable(labels)
            + (" "@ + arg + "`"@)
    }
}

/// Why no client is chosen, where none is.
pub open spec fn doubt(
    labels: Seq<Seq<char>>,
    direction: u8,
    arg: Seq<char>,
    in_session: bool,
) -> Option<Seq<char>> {
    if labels.len() == 1 {
        None
    } else {
        Some(choice_error(labels, direction, arg, in_session))
    }
}

/// Nothing is guessed: a client is chosen only where it is the only one, and
/// where there are several, each of them is named.
pub proof fn law_clients_are_never_guessed(
    labels: Seq<Seq<char>>,
    direction: u8,
    arg: Seq<char>,
    in_session: bool,
)
    ensures
        doubt(labels, direction, arg, in_session) is None <==> labels.len() == 1,
        labels.len() > 1 ==> text::has_text(
            doubt(labels, direction, arg, in_session)->0,
            text::join(labels, ", "@),
        ),
{
    if labels.len() > 1 {
        let m = doubt(labels, direction, arg, in_session)->0;
        let all = text::join(labels, ", "@);
        let at = "multiple attached sessions: "@.len() as int;
        assert(m.subrange(at, at + all.len()) =~= all);
        assert(text::occurs_at(m, all, at));
    }
}

/// Choose the client that carries a forward by the labels of those that were
/// found: there must be exactly one.
pub fn choose_forward(
    labels: &Vec<String>,
    direction: u8,
    arg: &str,
    in_session: bool,
) -> (r: Result<(), String>)
    ensures
        match doubt(text::views(labels@), direction, arg@, in_session) {
            None => r is Ok,
            Some(m) => r is Err && r->Err_0@ == m,
        },
{
    if labels.len() == 1 {
        return Ok(());
    }
    if labels.len() == 0 {
        return Err(
            cat2(
                "no attached session found (port forwards need an attached `gritty connect` client)",
                in_session_hint(in_session),
            ),
        );
    }
    let ghost all = text::views(labels@);
    let mut i: usize = 0;
    assert(all.skip(0) == all);
    while i < labels.len() && !has_char(labels[i].as_str(), ':')
        invariant
            i <= labels@.len(),
            all == text::views(labels@),
            typeable(all) == typeable(all.skip(i as int)),
        decreases labels@.len() - i,
    {
        assert(all.skip(i as int)[0] == labels@[i as int]@);
        assert(all.skip(i as int).skip(1) == all.skip(i + 1));
        i = i + 1;
    }
    let example = if i < labels.len() {
        assert(all.skip(i as int)[0] == labels@[i as int]@);
        copy(labels[i].as_str())
    } else {
        copy("<host:session>")
    };
    let names = join_texts(labels, ", ");
    let end = cat3(" ", arg, "`");
    Err(
        cat7(
            "multiple attached sessions: ",
            names.as_str(),
            " -- specify a target, e.g. `gritty ",
            forward_alias(direction),
            " ",
            example.as_str(),
            end.as_str(),
        ),
    )
}

/// What is said where the client does not answer.
pub fn no_client_text(label: &str, path: &str, in_session: bool) -> (r: String)
    ensures
        r@ == "no client attached to "@ + label@ + " (could not connect to "@ + path@ + ")"@
            + session_hint(in_session),
{
    cat6(
        "no client attached to ",
        label,
        " (could not connect to ",
        path,
        ")",
        in_session_hint(in_session),
    )
}

pub open spec fn hex_digit(d: u8) -> char {
    if d < 10 {
        (0x30 + d) as char
    } else {
        (0x57 + d) as char
    }
}

/// A byte as two hexadecimal digits.
pub open spec fn hex_byte(b: u8) -> Seq<char> {
    seq![hex_digit(b / 16), hex_digit(b % 16)]
}

fn hex_char(d: u8) -> (r: char)
    requires
        d < 16,
    ensures
        r == hex_digit(d),
{
    if d < 10 {
        (0x30 + d) as char
    } else {
        (0x57 + d) as char
    }
}

/// A byte as two hexadecimal digits.
pub fn hex_text(b: u8) -> (r: String)
    ensures
        r@ == hex_byte(b),
{
    let mut hex = String::new();
    hex.push(hex_char(b / 16));
    hex.push(hex_char(b % 16));
    assert(hex@ =~= hex_byte(b));
    hex
}

/// What is wrong with a forward by the client's answer, if anything is.
pub open spec fn setback(
    answer: u8,
    message: Seq<char>,
    listen_port: u16,
    target_port: u16,
) -> Option<Seq<char>> {
    if answer == 1 {
        None
    } else if answer == 2 {
        Some(
            message + (if is_bind_failure(message) {
                port_hint(listen_port, target_port)
            } else {
                ""@
            }),
        )
    } else {
        Some("unexpected response: 0x"@ + hex_byte(answer))
    }
}

/// A forward is up exactly where the client says so; where the client gives a
/// reason why not, that reason is told first.
pub proof fn law_forwards_are_up_when_the_client_says_so(
    answer: u8,
    message: Seq<char>,
    listen_port: u16,
    target_port: u16,
)
    ensures
        setback(answer, message, listen_port, target_port) is None <==> answer == 1,
        answer == 2 ==> message.is_prefix_of(setback(answer, message, listen_port, target_port)->0),
{
    if answer == 2 {
        let s = setback(answer, message, listen_port, target_port)->0;
        assert(s.subrange(0, message.len() as int) =~= message);
    }
}

/// What the client's answer to a forward request means: one byte says that the
/// forward is up, another that a reason follows.
pub fn forward_reply(
    answer: u8,
    message: &str,
    listen_port: u16,
    target_port: u16,
) -> (r: Result<(), String>)
    ensures
        match setback(answer, message@, listen_port, target_port) {
            None => r is Ok,
            Some(m) => r is Err && r->Err_0@ == m,
        },
{
    if answer == 2 {
        let hint = match busy_port_hint(message, listen_port, target_port) {
            Some(h) => h,
            None => copy(""),
        };
        return Err(cat2(message, hint.as_str()));
    }
    if answer != 1 {
        let hex = hex_text(answer);
        return Err(cat2("unexpected response: 0x", hex.as_str()));
    }
    Ok(())
}

pub open spec fn ports_text(listen_port: u16, target_port: u16) -> Seq<char> {
    if listen_port == target_port {
        text::decimal(listen_port as nat)
    } else {
        text::decimal(listen_port as nat) + ":"@ + text::decimal(target_port as nat)
    }
}

/// What is said of a forward that is up.
pub fn forward_active_text(
    direction: u8,
    listen_port: u16,
    target_port: u16,
    label: &str,
) -> (r: String)
    ensures
        r@ == "\x1b[32m\u{25b8} "@ + (if direction == 0 {
            "local"@
        } else {
            "remote"@
        }) + "-forward "@ + ports_text(listen_port, target_port) + " active ("@ + label@
            + ")\x1b[0m"@,
{
    let a = decimal_text(listen_port as u64);
    let ports = if listen_port == target_port {
        a
    } else {
        let b = decimal_text(target_port as u64);
        cat3(a.as_str(), ":", b.as_str())
    };
    let way = if direction == 0 {
        "local"
    } else {
        "remote"
    };
    cat7(
        "\x1b[32m\u{25b8} ",
        way,
        "-forward ",
        ports.as_str(),
        " active (",
        label,
        ")\x1b[0m",
    )
}

/// A port spec with two ports reads back as the two ports.
pub proof fn law_port_spec_round_trip(listen_port: u16, target_port: u16)
    requires
        listen_port != 0,
        target_port != 0,
    ensures
        port_spec(ports_text(listen_port, target_port)) == Ok::<(u16, u16), Seq<char>>(
            (listen_port, target_port),
        ),
{
    reveal_strlit(":");
    let a = text::decimal(listen_port as nat);
    let b = text::decimal(target_port as nat);
    text::law_decimal_round_trip(listen_port as nat);
    text::law_decimal_round_trip(target_port as nat);
    let s = ports_text(listen_port, target_port);
    if listen_port == target_port {
        assert(!s.contains(':')) by {
            if s.contains(':') {
                let i = choose|i: int| 0 <= i < s.len() && s[i] == ':';
                assert(text::is_digit_char(s[i]));
            }
        }
    } else {
        let k = a.len() as int;
        assert(s[k] == ':');
        assert(s.contains(':'));
        assert forall|i: int| 0 <= i < k implies #[trigger] s[i] != ':' by {
            assert(s[i] == a[i]);
            assert(text::is_digit_char(a[i]));
        }
        text::lemma_first_index_is(s, ':', k);
        assert(s.take(k) == a);
        assert(s.skip(k + 1) == b);
    }
}

/// A client on this machine, found by the socket that it listens on, is the
/// client of the session that the socket was made for.
pub proof fn law_forward_socket_is_found(dir: Seq<char>, host: Seq<char>, id: u32, f: FoundFile)
    requires
        f.alive,
        f.name@ == client::forward_socket_name(host, id),
    ensures
        live_carriers(dir, seq![f]) == seq![
            Carrier { path: paths::joined(dir, f.name@), host, session_id: id },
        ],
{
    client::law_forward_socket_name_round_trip(host, id);
    let s = seq![f];
    assert(s.drop_last() == Seq::<FoundFile>::empty());
    assert(live_carriers(dir, s.drop_last()) == Seq::<Carrier>::empty());
    assert(live_carriers(dir, s) =~= seq![
        Carrier { path: paths::joined(dir, f.name@), host, session_id: id },
    ]);
}

/// Every client that listens is found, and what a crashed one left behind is
/// not.
pub proof fn law_every_live_client_is_found(dir: Seq<char>, files: Seq<FoundFile>, c: Carrier)
    ensures
        live_carriers(dir, files).contains(c) <==> exists|i: int|
            0 <= i < files.len() && (#[trigger] files[i]).alive && client::forward_socket_parts(
                files[i].name@,
            ) == Some((c.host, c.session_id)) && c.path == paths::joined(dir, files[i].name@),
    decreases files.len(),
{
    if files.len() > 0 {
        let init = files.drop_last();
        law_every_live_client_is_found(dir, init, c);
        let before = live_carriers(dir, init);
        let all = live_carriers(dir, files);
        if before.contains(c) {
            let k = choose|k: int| 0 <= k < before.len() && before[k] == c;
            assert(all[k] == c);
            let i = choose|i: int|
                0 <= i < init.len() && (#[trigger] init[i]).alive && client::forward_socket_parts(
                    init[i].name@,
                ) == Some((c.host, c.session_id)) && c.path == paths::joined(dir, init[i].name@);
            assert(files[i].alive);
        }
        let f = files[files.len() - 1];
        assert(f == files.last());
        if f.alive && client::forward_socket_parts(f.name@) == Some((c.host, c.session_id))
            && c.path == paths::joined(dir, f.name@) {
            assert(all[all.len() - 1] == c);
        }
        if all.contains(c) && !before.contains(c) {
            let k = choose|k: int| 0 <= k < all.len() && all[k] == c;
            if k < before.len() {
                assert(before[k] == c);
            }
            assert(files[files.len() - 1].alive);
        }
        if exists|i: int|
            0 <= i < files.len() && (#[trigger] files[i]).alive && client::forward_socket_parts(
                files[i].name@,
            ) == Some((c.host, c.session_id)) && c.path == paths::joined(dir, files[i].name@) {
            let i = choose|i: int|
                0 <= i < files.len() && (#[trigger] files[i]).alive && client::forward_socket_parts(
                    files[i].name@,
                ) == Some((c.host, c.session_id)) && c.path == paths::joined(dir, files[i].name@);
            if i < init.len() {
                assert(init[i].alive);
            }
        }
    }
}

/// A forward listens on the port that was named first, leads to the one that
/// was named second, and is carried by the client of the session that was
/// named, on the host that was named.
pub proof fn law_forwards_go_where_they_are_asked(
    p: ForwardPlan,
    c: ConfigFile,
    own: Seq<char>,
    socket_dir: Seq<char>,
    host: Seq<char>,
    session: Seq<char>,
    listen_port: u16,
    target_port: u16,
)
    requires
        plans(
            p,
            c,
            own,
            socket_dir,
            None,
            Some(host + ":"@ + session),
            ports_text(listen_port, target_port),
        ),
        !host.contains(':'),
        session.contains('/'),
        listen_port != 0,
        target_port != 0,
    ensures
        p.listen_port == listen_port,
        p.target_port == target_port,
        p.via is Session,
        p.via->session@ == session,
        Some(p.via->ctl_path@) == target::ctl_path_of(
            socket_dir,
            None,
            Some(config::canonical(c, host)),
        ),
{
    law_port_spec_round_trip(listen_port, target_port);
    target::law_targets_read_back(host, session);
}

} // verus!
