//! Tunnels: where they lead, the ssh command lines behind them, and the files
//! that belong to them.

use vstd::prelude::*;
use crate::outside;
use crate::outside::{debug_string, quote_word};
use crate::paths;
use crate::paths::{file_name_of, join_path, parent_of, paths_equal};
use crate::protocol::PROTOCOL_VERSION;
use crate::text;
use crate::text::{
    after_prefix,
    append_all,
    before_suffix,
    cat2,
    cat3,
    cat4,
    cat5,
    contains,
    copy,
    cut_at,
    cut_at_last,
    decimal_text,
    has_char,
    join_texts,
    lines_of,
    parse_unsigned,
    same,
    trim,
};

verus! {

/// Where a tunnel leads: `[user@]host[:port]`.
#[derive(Debug, PartialEq, Eq)]
pub struct Destination {
    pub user: Option<String>,
    pub host: String,
    pub port: Option<u16>,
}

/// A destination as a mathematical value.
pub struct Dest {
    pub user: Option<Seq<char>>,
    pub host: Seq<char>,
    pub port: Option<u16>,
}

impl View for Destination {
    type V = Dest;

    open spec fn view(&self) -> Dest {
        Dest { user: text::owned_view(self.user), host: self.host@, port: self.port }
    }
}

/// What is wrong with a destination.
#[derive(Debug, Clone, Copy, PartialEq, Eq, Structural)]
pub enum DestinationError {
    Empty,
    EmptyUser,
    InvalidPort,
    AfterBracket,
    UnclosedBracket,
    EmptyHost,
}

impl DestinationError {
    pub open spec fn text(self, s: Seq<char>) -> Seq<char> {
        match self {
            DestinationError::Empty => "empty destination"@,
            DestinationError::EmptyUser => "empty user in destination: "@ + s,
            DestinationError::InvalidPort => "invalid port in destination: "@ + s,
            DestinationError::AfterBracket => "unexpected characters after bracketed host: "@ + s,
            DestinationError::UnclosedBracket => "unclosed bracket in destination: "@ + s,
            DestinationError::EmptyHost => "empty host in destination: "@ + s,
        }
    }

    /// The error in words, for the destination `s`.
    pub fn message(self, s: &str) -> (r: String)
        ensures
            r@ == self.text(s@),
    {
        match self {
            DestinationError::Empty => copy("empty destination"),
            DestinationError::EmptyUser => cat2("empty user in destination: ", s),
            DestinationError::InvalidPort => cat2("invalid port in destination: ", s),
            DestinationError::AfterBracket => cat2(
                "unexpected characters after bracketed host: ",
                s,
            ),
            DestinationError::UnclosedBracket => cat2("unclosed bracket in destination: ", s),
            DestinationError::EmptyHost => cat2("empty host in destination: ", s),
        }
    }
}

/// A port number in decimal.
pub open spec fn port_number(s: Seq<char>) -> Option<u16> {
    match text::unsigned(s) {
        Some(n) => if n <= 65535 {
            Some(n as u16)
        } else {
            None
        },
        None => None,
    }
}

/// Host and port of `host`, `host:port`, `[address]`, `[address]:port` or a
/// bare address with several colons.
pub open spec fn host_and_port(s: Seq<char>) -> Result<(Seq<char>, Option<u16>), DestinationError> {
    let first = text::first_index(s, ':');
    let last = text::last_index(s, ':');
    if s.len() > 0 && s[0] == '[' {
        let close = text::first_index(s, ']');
        let after = s.skip(close + 1);
        if close == s.len() {
            Err(DestinationError::UnclosedBracket)
        } else if after.len() == 0 {
            Ok((s.subrange(1, close), None))
        } else if after[0] != ':' {
            Err(DestinationError::AfterBracket)
        } else if port_number(after.skip(1)) is Some {
            Ok((s.subrange(1, close), port_number(after.skip(1))))
        } else {
            Err(DestinationError::InvalidPort)
        }
    } else if last < 0 || first != last || port_number(s.skip(last + 1)) is None {
        Ok((s, None))
    } else {
        Ok((s.take(last), port_number(s.skip(last + 1))))
    }
}

/// What a destination means, or what is wrong with it.
pub open spec fn destination(s: Seq<char>) -> Result<Dest, DestinationError> {
    let at = text::first_index(s, '@');
    let (user, rest) = if at < s.len() {
        (Some(s.take(at)), s.skip(at + 1))
    } else {
        (None, s)
    };
    if s.len() == 0 {
        Err(DestinationError::Empty)
    } else if at == 0 {
        Err(DestinationError::EmptyUser)
    } else {
        match host_and_port(rest) {
            Err(e) => Err(e),
            Ok(hp) => if hp.0.len() == 0 {
                Err(DestinationError::EmptyHost)
            } else {
                Ok(Dest { user, host: hp.0, port: hp.1 })
            },
        }
    }
}

fn parse_port(s: &str) -> (r: Option<u16>)
    ensures
        r == port_number(s@),
{
    match parse_unsigned(s, 65535) {
        Some(n) => Some(n as u16),
        None => None,
    }
}

fn split_host_port(s: &str) -> (r: Result<(String, Option<u16>), DestinationError>)
    ensures
        match (r, host_and_port(s@)) {
            (Ok(a), Ok(b)) => a.0@ == b.0 && a.1 == b.1,
            (Err(a), Err(b)) => a == b,
            _ => false,
        },
{
    proof {
        text::lemma_first_index(s@, ']');
        text::lemma_first_index(s@, ':');
        text::lemma_last_index(s@, ':');
    }
    if !s.is_empty() && s.get_char(0) == '[' {
        match cut_at(s, ']') {
            None => Err(DestinationError::UnclosedBracket),
            Some((open, after)) => {
                let n: usize = open.as_str().unicode_len();
                let host = copy(open.as_str().substring_char(1, n));
                assert(host@ == s@.subrange(1, text::first_index(s@, ']')));
                if after.as_str().is_empty() {
                    return Ok((host, None));
                }
                if after.as_str().get_char(0) != ':' {
                    return Err(DestinationError::AfterBracket);
                }
                let m: usize = after.as_str().unicode_len();
                let digits = after.as_str().substring_char(1, m);
                assert(digits@ == after@.skip(1));
                match parse_port(digits) {
                    Some(p) => Ok((host, Some(p))),
                    None => Err(DestinationError::InvalidPort),
                }
            },
        }
    } else {
        match cut_at_last(s, ':') {
            None => Ok((copy(s), None)),
            Some((host, digits)) => {
                proof {
                    let last = text::last_index(s@, ':');
                    let first = text::first_index(s@, ':');
                    if host@.contains(':') {
                        let i = choose|i: int| 0 <= i < host@.len() && host@[i] == ':';
                        assert(s@[i] == ':');
                        assert(first <= i);
                    } else {
                        if first < last {
                            assert(host@[first] == ':');
                        }
                        if last < first {
                            assert(s@[last] != ':');
                        }
                    }
                }
                if has_char(host.as_str(), ':') {
                    return Ok((copy(s), None));
                }
                match parse_port(digits.as_str()) {
                    Some(p) => Ok((host, Some(p))),
                    None => Ok((copy(s), None)),
                }
            },
        }
    }
}

impl Destination {
    pub fn parse(s: &str) -> (r: Result<Destination, DestinationError>)
        ensures
            match (r, destination(s@)) {
                (Ok(a), Ok(b)) => a@ == b,
                (Err(a), Err(b)) => a == b,
                _ => false,
            },
    {
        if s.is_empty() {
            return Err(DestinationError::Empty);
        }
        proof {
            text::lemma_first_index(s@, '@');
        }
        let (user, rest) = match cut_at(s, '@') {
            Some((u, rest)) => {
                if u.as_str().is_empty() {
                    return Err(DestinationError::EmptyUser);
                }
                (Some(u), rest)
            },
            None => (None, copy(s)),
        };
        match split_host_port(rest.as_str()) {
            Err(e) => Err(e),
            Ok((host, port)) => {
                if host.as_str().is_empty() {
                    Err(DestinationError::EmptyHost)
                } else {
                    Ok(Destination { user, host, port })
                }
            },
        }
    }

    /// The destination as ssh takes it: `user@host` or just `host`.
    pub fn ssh_dest(&self) -> (r: String)
        ensures
            r@ == ssh_target(self@),
    {
        match &self.user {
            Some(u) => cat3(u.as_str(), "@", self.host.as_str()),
            None => self.host.clone(),
        }
    }

    /// The arguments that name the port, if one is set.
    pub fn port_args(&self) -> (r: Vec<String>)
        ensures
            text::views(r@) == port_words(self@),
    {
        let mut r: Vec<String> = Vec::new();
        match self.port {
            Some(p) => {
                r.push(copy("-p"));
                r.push(decimal_text(p as u64));
            },
            None => {},
        }
        assert(text::views(r@) =~= port_words(self@));
        r
    }
}

pub open spec fn ssh_target(d: Dest) -> Seq<char> {
    match d.user {
        Some(u) => u + "@"@ + d.host,
        None => d.host,
    }
}

pub open spec fn port_words(d: Dest) -> Seq<Seq<char>> {
    match d.port {
        Some(p) => seq!["-p"@, text::decimal(p as nat)],
        None => seq![],
    }
}

/// Extract the host from a destination.
pub fn parse_host(destination: &str) -> (r: Result<String, DestinationError>)
    ensures
        match (r, self::destination(destination@)) {
            (Ok(h), Ok(d)) => h@ == d.host,
            (Err(a), Err(b)) => a == b,
            _ => false,
        },
{
    match Destination::parse(destination) {
        Ok(d) => Ok(d.host),
        Err(e) => Err(e),
    }
}

/// Why a name cannot name a connection.
#[derive(Debug, Clone, Copy, PartialEq, Eq, Structural)]
pub enum NameError {
    Empty,
    /// It holds a slash, a NUL or two dots in a row.
    Invalid,
}

/// Whether a connection name can become part of a file name.
pub open spec fn name_error(name: Seq<char>) -> Option<NameError> {
    if name.len() == 0 {
        Some(NameError::Empty)
    } else if name.contains('/') || name.contains('\0') || text::has_text(name, ".."@) {
        Some(NameError::Invalid)
    } else {
        None
    }
}

/// Reject connection names that could lead out of the socket directory.
pub fn validate_connection_name(name: &str) -> (r: Result<(), NameError>)
    ensures
        r == (match name_error(name@) {
            Some(e) => Err::<(), NameError>(e),
            None => Ok(()),
        }),
{
    if name.is_empty() {
        return Err(NameError::Empty);
    }
    if has_char(name, '/') || has_char(name, '\0') || contains(name, "..") {
        return Err(NameError::Invalid);
    }
    Ok(())
}

impl NameError {
    /// The error in words, for the name `name`.
    pub fn message(self, name: &str) -> (r: String)
        ensures
            r@ == (match self {
                NameError::Empty => "connection name must not be empty"@,
                NameError::Invalid => "invalid connection name: "@ + outside::debug_text(name@),
            }),
    {
        match self {
            NameError::Empty => copy("connection name must not be empty"),
            NameError::Invalid => {
                let shown = debug_string(name);
                cat2("invalid connection name: ", shown.as_str())
            },
        }
    }
}

/// The `PATH` under which a program is looked for on a remote host, where the
/// shell that ssh starts has not read the user's profile.
pub const REMOTE_PATH_PREFIX: &'static str = "$HOME/bin:$HOME/.local/bin:$HOME/.cargo/bin:$HOME/.nix-profile/bin:/usr/local/bin:/opt/homebrew/bin:/snap/bin:$PATH";

/// Each option behind an `-o`.
pub open spec fn option_words(opts: Seq<Seq<char>>) -> Seq<Seq<char>>
    decreases opts.len(),
{
    if opts.len() == 0 {
        seq![]
    } else {
        option_words(opts.drop_last()) + seq!["-o"@, opts.last()]
    }
}

/// The arguments that precede the destination in every ssh command: port, the
/// user's options, the connect timeout (unless it is zero, which leaves it to
/// ssh), and batch mode in the background.
pub open spec fn base_words(
    d: Dest,
    opts: Seq<Seq<char>>,
    foreground: bool,
    connect_timeout: u64,
) -> Seq<Seq<char>> {
    let timeout = if connect_timeout > 0 {
        seq!["-o"@, "ConnectTimeout="@ + text::decimal(connect_timeout as nat)]
    } else {
        Seq::<Seq<char>>::empty()
    };
    let batch = if foreground {
        Seq::<Seq<char>>::empty()
    } else {
        seq!["-o"@, "BatchMode=yes"@]
    };
    port_words(d) + option_words(opts) + timeout + batch
}

fn push_option(args: &mut Vec<String>, opt: &str)
    ensures
        text::views(final(args)@) == text::views(old(args)@) + seq!["-o"@, opt@],
{
    let ghost start = args@;
    args.push(copy("-o"));
    args.push(copy(opt));
    assert(text::views(args@) =~= text::views(start) + seq!["-o"@, opt@]);
}

fn push_word(args: &mut Vec<String>, word: &str)
    ensures
        text::views(final(args)@) == text::views(old(args)@).push(word@),
{
    let w = copy(word);
    proof {
        text::lemma_views_push(args@, w);
    }
    args.push(w);
}

fn push_options(args: &mut Vec<String>, opts: &Vec<String>)
    ensures
        text::views(final(args)@) == text::views(old(args)@) + option_words(text::views(opts@)),
{
    let ghost start = text::views(args@);
    let ghost all = text::views(opts@);
    let mut i: usize = 0;
    assert(all.take(0) == Seq::<Seq<char>>::empty());
    assert(start + option_words(all.take(0)) == start);
    while i < opts.len()
        invariant
            i <= opts.len(),
            all == text::views(opts@),
            text::views(args@) == start + option_words(all.take(i as int)),
        decreases opts.len() - i,
    {
        proof {
            assert(all.take(i + 1).drop_last() == all.take(i as int));
            assert(all.take(i + 1).last() == opts@[i as int]@);
            let w = option_words(all.take(i as int));
            let o = seq!["-o"@, opts@[i as int]@];
            assert(start + w + o == start + (w + o));
        }
        push_option(args, opts[i].as_str());
        i = i + 1;
    }
    assert(all.take(all.len() as int) == all);
}

/// Build the ssh arguments that precede the destination in every invocation.
pub fn base_ssh_args(
    dest: &Destination,
    extra_ssh_opts: &Vec<String>,
    foreground: bool,
    connect_timeout: u64,
) -> (r: Vec<String>)
    ensures
        text::views(r@) == base_words(
            dest@,
            text::views(extra_ssh_opts@),
            foreground,
            connect_timeout,
        ),
{
    let mut args = dest.port_args();
    push_options(&mut args, extra_ssh_opts);
    let ghost mid = text::views(args@);
    if connect_timeout > 0 {
        let secs = decimal_text(connect_timeout);
        let opt = cat2("ConnectTimeout=", secs.as_str());
        push_option(&mut args, opt.as_str());
    } else {
        assert(mid + Seq::<Seq<char>>::empty() == mid);
    }
    let ghost timed = text::views(args@);
    if !foreground {
        push_option(&mut args, "BatchMode=yes");
    } else {
        assert(timed + Seq::<Seq<char>>::empty() == timed);
    }
    args
}

/// A shell command for a remote host, under a `PATH` that finds the program.
pub open spec fn wrapped_command(
    bin_dir: Option<Seq<char>>,
    socket_dir: Option<Seq<char>>,
    remote_cmd: Seq<char>,
) -> Seq<char> {
    let path = match bin_dir {
        Some(d) => "PATH=\""@ + d + ":"@ + REMOTE_PATH_PREFIX@ + "\""@,
        None => "PATH=\""@ + REMOTE_PATH_PREFIX@ + "\""@,
    };
    let preamble = match socket_dir {
        Some(d) => path + "; export GRITTY_SOCKET_DIR=\""@ + d + "\""@,
        None => path,
    };
    preamble + "; "@ + remote_cmd
}

/// The arguments of ssh that run a command on a remote host. A remote that
/// hangs after the login is noticed within seconds.
pub open spec fn remote_words(
    d: Dest,
    wrapped: Seq<char>,
    opts: Seq<Seq<char>>,
    foreground: bool,
    connect_timeout: u64,
) -> Seq<Seq<char>> {
    base_words(d, opts, foreground, connect_timeout) + seq![
        "-o"@,
        "ServerAliveInterval=3"@,
        "-o"@,
        "ServerAliveCountMax=2"@,
        ssh_target(d),
        wrapped,
    ]
}

/// Build the ssh arguments for running a command on a remote host. `bin_dir`
/// and `socket_dir` are settings of the environment.
pub fn remote_exec_command(
    dest: &Destination,
    remote_cmd: &str,
    extra_ssh_opts: &Vec<String>,
    foreground: bool,
    connect_timeout: u64,
    bin_dir: Option<String>,
    socket_dir: Option<String>,
) -> (r: Vec<String>)
    ensures
        text::views(r@) == remote_words(
            dest@,
            wrapped_command(text::owned_view(bin_dir), text::owned_view(socket_dir), remote_cmd@),
            text::views(extra_ssh_opts@),
            foreground,
            connect_timeout,
        ),
{
    let mut cmd = match bin_dir {
        Some(d) => cat5("PATH=\"", d.as_str(), ":", REMOTE_PATH_PREFIX, "\""),
        None => cat3("PATH=\"", REMOTE_PATH_PREFIX, "\""),
    };
    match socket_dir {
        Some(d) => {
            cmd.append("; export GRITTY_SOCKET_DIR=\"");
            cmd.append(d.as_str());
            cmd.append("\"");
        },
        None => {},
    }
    cmd.append("; ");
    cmd.append(remote_cmd);
    let mut args = base_ssh_args(dest, extra_ssh_opts, foreground, connect_timeout);
    let ghost base = text::views(args@);
    push_option(&mut args, "ServerAliveInterval=3");
    push_option(&mut args, "ServerAliveCountMax=2");
    let target = dest.ssh_dest();
    push_word(&mut args, target.as_str());
    push_word(&mut args, cmd.as_str());
    assert(text::views(args@) =~= base + seq![
        "-o"@,
        "ServerAliveInterval=3"@,
        "-o"@,
        "ServerAliveCountMax=2"@,
        target@,
        cmd@,
    ]);
    args
}

/// A text as a word of a shell command, for display: quoted where that is
/// possible and needed.
pub open spec fn shell_word(s: Seq<char>) -> Seq<char> {
    if s.contains('\0') {
        s
    } else {
        outside::quoted_word(s)
    }
}

/// Shell-quote a string if it contains characters that need quoting. Used for
/// display only.
pub fn shell_quote(s: &str) -> (r: String)
    ensures
        r@ == shell_word(s@),
        outside::unquoted_word(s@) ==> r@ == s@,
{
    let q = quote_word(s);
    let r = choose_quoted(s, q);
    proof {
        if s@.contains('\0') && outside::unquoted_word(s@) {
            let i = choose|i: int| 0 <= i < s@.len() && s@[i] == '\0';
            assert(outside::unquoted_char(s@[i]));
        }
    }
    r
}

/// The quoted form where there is one, else the text itself.
pub fn choose_quoted(s: &str, quoted: Option<String>) -> (r: String)
    ensures
        r@ == (match quoted {
            Some(q) => q@,
            None => s@,
        }),
{
    match quoted {
        Some(q) => q,
        None => copy(s),
    }
}

pub open spec fn shell_words(args: Seq<Seq<char>>) -> Seq<Seq<char>> {
    args.map_values(|a: Seq<char>| shell_word(a))
}

fn quote_all(args: &Vec<String>) -> (r: Vec<String>)
    ensures
        text::views(r@) == shell_words(text::views(args@)),
{
    let mut r: Vec<String> = Vec::new();
    let ghost all = shell_words(text::views(args@));
    let mut i: usize = 0;
    assert(text::views(r@) == all.take(0));
    while i < args.len()
        invariant
            i <= args.len(),
            all == shell_words(text::views(args@)),
            text::views(r@) == all.take(i as int),
        decreases args.len() - i,
    {
        let q = shell_quote(args[i].as_str());
        proof {
            text::lemma_views_push(r@, q);
            assert(all[i as int] == q@);
            assert(all.take(i + 1) == all.take(i as int).push(q@));
        }
        r.push(q);
        i = i + 1;
    }
    assert(all.take(all.len() as int) == all);
    r
}

/// A command line for display.
pub open spec fn command_text(prog: Seq<char>, args: Seq<Seq<char>>) -> Seq<char> {
    if args.len() == 0 {
        prog
    } else {
        prog + " "@ + text::join(shell_words(args), " "@)
    }
}

/// Format a program and its arguments as a shell command, for display.
pub fn format_command(prog: &str, args: &Vec<String>) -> (r: String)
    ensures
        r@ == command_text(prog@, text::views(args@)),
{
    if args.len() == 0 {
        return copy(prog);
    }
    let words = quote_all(args);
    let line = join_texts(&words, " ");
    cat3(prog, " ", line.as_str())
}

/// The ssh command to try by hand.
pub open spec fn diag_text(
    d: Dest,
    opts: Seq<Seq<char>>,
    foreground: bool,
    connect_timeout: u64,
) -> Seq<char> {
    text::join(
        seq!["ssh"@] + shell_words(base_words(d, opts, foreground, connect_timeout)) + seq![
            ssh_target(d),
        ],
        " "@,
    )
}

/// Format an ssh command to try by hand, with the arguments that were used.
pub fn format_ssh_diag(
    dest: &Destination,
    extra_ssh_opts: &Vec<String>,
    foreground: bool,
    connect_timeout: u64,
) -> (r: String)
    ensures
        r@ == diag_text(dest@, text::views(extra_ssh_opts@), foreground, connect_timeout),
{
    let args = base_ssh_args(dest, extra_ssh_opts, foreground, connect_timeout);
    let quoted = quote_all(&args);
    let mut parts: Vec<String> = Vec::new();
    push_word(&mut parts, "ssh");
    assert(text::views(parts@) =~= seq!["ssh"@]);
    append_all(&mut parts, &quoted);
    let ghost before = text::views(parts@);
    let target = dest.ssh_dest();
    push_word(&mut parts, target.as_str());
    assert(text::views(parts@) =~= before + seq![target@]);
    join_texts(&parts, " ")
}

/// What to say of a remote command that failed: that the program is missing
/// there, or what ssh said, with a command to try by hand.
pub open spec fn failure_text(
    d: Dest,
    stderr: Seq<char>,
    status: Seq<char>,
    diag: Seq<char>,
) -> Seq<char> {
    let t = text::trimmed(stderr);
    if text::has_text(t, "command not found"@) || text::has_text(t, "No such file"@) {
        "gritty not found on remote host\n  quick install:  gritty bootstrap "@ + ssh_target(d)
            + "\n  manual install: ssh "@ + ssh_target(d) + " 'cargo install gritty-cli'"@
    } else if t.len() == 0 {
        "ssh command failed (exit "@ + status + ")\n  to diagnose: "@ + diag
    } else {
        "ssh command failed: "@ + t + "\n  to diagnose: "@ + diag
    }
}

/// Explain why a remote command failed.
pub fn remote_exec_failure(dest: &Destination, stderr: &str, status: &str, diag: &str) -> (r: String)
    ensures
        r@ == failure_text(dest@, stderr@, status@, diag@),
{
    let t = trim(stderr);
    if contains(t.as_str(), "command not found") || contains(t.as_str(), "No such file") {
        let target = dest.ssh_dest();
        cat5(
            "gritty not found on remote host\n  quick install:  gritty bootstrap ",
            target.as_str(),
            "\n  manual install: ssh ",
            target.as_str(),
            " 'cargo install gritty-cli'",
        )
    } else if t.as_str().is_empty() {
        cat4("ssh command failed (exit ", status, ")\n  to diagnose: ", diag)
    } else {
        cat4("ssh command failed: ", t.as_str(), "\n  to diagnose: ", diag)
    }
}

/// How long a remote command may take, in seconds.
pub const REMOTE_EXEC_TIMEOUT: u64 = 60;

/// What is said of a remote command that never came back.
pub fn remote_exec_timed_out(diag: &str) -> (r: String)
    ensures
        r@ == "ssh command timed out after "@ + text::decimal(REMOTE_EXEC_TIMEOUT as nat)
            + "s\n  to diagnose: "@ + diag@,
{
    let n = decimal_text(REMOTE_EXEC_TIMEOUT);
    cat4("ssh command timed out after ", n.as_str(), "s\n  to diagnose: ", diag)
}

/// The arguments of ssh for the tunnel itself. With its own connection it runs
/// no remote command; a shared one would return at once, so there a command
/// that sleeps keeps it open.
pub open spec fn tunnel_words(
    d: Dest,
    local_sock: Seq<char>,
    remote_sock: Seq<char>,
    opts: Seq<Seq<char>>,
    foreground: bool,
    isolate_control_path: bool,
    connect_timeout: u64,
) -> Seq<Seq<char>> {
    let fixed = seq![
        "-o"@,
        "ServerAliveInterval=3"@,
        "-o"@,
        "ServerAliveCountMax=2"@,
        "-o"@,
        "StreamLocalBindUnlink=yes"@,
        "-o"@,
        "ExitOnForwardFailure=yes"@,
        "-o"@,
        "ForwardAgent=no"@,
        "-o"@,
        "ForwardX11=no"@,
    ];
    let forward = local_sock + ":"@ + remote_sock;
    base_words(d, opts, foreground, connect_timeout) + fixed + (if isolate_control_path {
        seq!["-o"@, "ControlPath=none"@, "-T"@, "-L"@, forward, "-N"@, ssh_target(d)]
    } else {
        seq!["-T"@, "-L"@, forward, ssh_target(d), "exec sleep 2147483647"@]
    })
}

/// Build the ssh arguments for the tunnel.
pub fn tunnel_command(
    dest: &Destination,
    local_sock: &str,
    remote_sock: &str,
    extra_ssh_opts: &Vec<String>,
    foreground: bool,
    isolate_control_path: bool,
    connect_timeout: u64,
) -> (r: Vec<String>)
    ensures
        text::views(r@) == tunnel_words(
            dest@,
            local_sock@,
            remote_sock@,
            text::views(extra_ssh_opts@),
            foreground,
            isolate_control_path,
            connect_timeout,
        ),
{
    let mut args = base_ssh_args(dest, extra_ssh_opts, foreground, connect_timeout);
    let ghost base = text::views(args@);
    push_option(&mut args, "ServerAliveInterval=3");
    push_option(&mut args, "ServerAliveCountMax=2");
    push_option(&mut args, "StreamLocalBindUnlink=yes");
    push_option(&mut args, "ExitOnForwardFailure=yes");
    push_option(&mut args, "ForwardAgent=no");
    push_option(&mut args, "ForwardX11=no");
    let ghost fixed = seq![
        "-o"@,
        "ServerAliveInterval=3"@,
        "-o"@,
        "ServerAliveCountMax=2"@,
        "-o"@,
        "StreamLocalBindUnlink=yes"@,
        "-o"@,
        "ExitOnForwardFailure=yes"@,
        "-o"@,
        "ForwardAgent=no"@,
        "-o"@,
        "ForwardX11=no"@,
    ];
    assert(text::views(args@) =~= base + fixed);
    let ghost head = text::views(args@);
    let forward = cat3(local_sock, ":", remote_sock);
    let target = dest.ssh_dest();
    if isolate_control_path {
        push_option(&mut args, "ControlPath=none");
        push_word(&mut args, "-T");
        push_word(&mut args, "-L");
        push_word(&mut args, forward.as_str());
        push_word(&mut args, "-N");
        push_word(&mut args, target.as_str());
        assert(text::views(args@) =~= head + seq![
            "-o"@,
            "ControlPath=none"@,
            "-T"@,
            "-L"@,
            forward@,
            "-N"@,
            target@,
        ]);
    } else {
        push_word(&mut args, "-T");
        push_word(&mut args, "-L");
        push_word(&mut args, forward.as_str());
        push_word(&mut args, target.as_str());
        push_word(&mut args, "exec sleep 2147483647");
        assert(text::views(args@) =~= head + seq![
            "-T"@,
            "-L"@,
            forward@,
            target@,
            "exec sleep 2147483647"@,
        ]);
    }
    args
}

/// The arguments of ssh that check whether a host lets this user in without
/// asking anything.
pub fn preflight_args(
    dest: &Destination,
    ssh_options: &Vec<String>,
    connect_timeout: u64,
) -> (r: Vec<String>)
    ensures
        text::views(r@) == port_words(dest@) + option_words(text::views(ssh_options@)) + seq![
            "-o"@,
            "BatchMode=yes"@,
        ] + (if connect_timeout > 0 {
            seq!["-o"@, "ConnectTimeout="@ + text::decimal(connect_timeout as nat)]
        } else {
            Seq::<Seq<char>>::empty()
        }) + seq![ssh_target(dest@), "true"@],
{
    let mut args = dest.port_args();
    push_options(&mut args, ssh_options);
    push_option(&mut args, "BatchMode=yes");
    let ghost head = text::views(args@);
    if connect_timeout > 0 {
        let secs = decimal_text(connect_timeout);
        let opt = cat2("ConnectTimeout=", secs.as_str());
        push_option(&mut args, opt.as_str());
    } else {
        assert(head + Seq::<Seq<char>>::empty() == head);
    }
    let ghost mid = text::views(args@);
    let target = dest.ssh_dest();
    push_word(&mut args, target.as_str());
    push_word(&mut args, "true");
    assert(text::views(args@) =~= mid + seq![target@, "true"@]);
    args
}

/// Where the installation script is found.
pub const INSTALL_SCRIPT_URL: &'static str = "https://raw.githubusercontent.com/chipturner/gritty/main/install.sh";

/// A directory in a command for a remote shell: a leading `~` becomes the home
/// directory there, all else is taken literally.
pub open spec fn remote_dir(dir: Seq<char>) -> Seq<char> {
    if dir == "~"@ {
        "\"$HOME\""@
    } else if "~/"@.is_prefix_of(dir) {
        "\"$HOME\"/"@ + shell_word(dir.skip("~/"@.len() as int))
    } else {
        shell_word(dir)
    }
}

/// Quote an installation directory for a command that a remote shell runs.
pub fn quote_remote_install_dir(install_dir: &str) -> (r: String)
    ensures
        r@ == remote_dir(install_dir@),
{
    if same(install_dir, "~") {
        return copy("\"$HOME\"");
    }
    match after_prefix(install_dir, "~/") {
        Some(rest) => {
            let q = shell_quote(rest.as_str());
            cat2("\"$HOME\"/", q.as_str())
        },
        None => shell_quote(install_dir),
    }
}

/// What is said where ssh cannot get through without asking anything, with the
/// destination as it was typed.
pub fn preflight_failure(dest: &Destination, destination: &str) -> (r: String)
    ensures
        r@ == "SSH cannot connect non-interactively to "@ + ssh_target(dest@)
            + "\n  if SSH needs a password or host key accept, use: gritty tunnel-create --foreground "@
            + destination@,
{
    let target = dest.ssh_dest();
    cat4(
        "SSH cannot connect non-interactively to ",
        target.as_str(),
        "\n  if SSH needs a password or host key accept, use: gritty tunnel-create --foreground ",
        destination,
    )
}

/// What is said while the program is installed on a remote host.
pub fn bootstrap_line(dest: &Destination) -> (r: String)
    ensures
        r@ == "\x1b[2m\u{25b8} installing gritty on "@ + ssh_target(dest@) + "...\x1b[0m"@,
{
    let target = dest.ssh_dest();
    cat3("\x1b[2m\u{25b8} installing gritty on ", target.as_str(), "...\x1b[0m")
}

/// What came of installing the program on a remote host.
pub fn bootstrap_result(success: bool, status: &str) -> (r: Result<(), String>)
    ensures
        r is Ok <==> success,
        r matches Err(e) ==> e@ == "remote install failed (exit "@ + status@ + ")"@,
{
    if success {
        Ok(())
    } else {
        Err(cat3("remote install failed (exit ", status, ")"))
    }
}

/// The arguments of ssh that install the program on a remote host.
pub fn bootstrap_args(
    dest: &Destination,
    ssh_options: &Vec<String>,
    install_dir: &str,
    connect_timeout: u64,
) -> (r: Vec<String>)
    ensures
        text::views(r@) == base_words(dest@, text::views(ssh_options@), true, connect_timeout)
            + seq![
            ssh_target(dest@),
            "GRITTY_INSTALL_DIR="@ + remote_dir(install_dir@) + " sh -c \"$(curl -sSfL "@
                + INSTALL_SCRIPT_URL@ + ")\""@,
        ],
{
    let mut args = base_ssh_args(dest, ssh_options, true, connect_timeout);
    let ghost base = text::views(args@);
    let dir = quote_remote_install_dir(install_dir);
    let cmd = cat5(
        "GRITTY_INSTALL_DIR=",
        dir.as_str(),
        " sh -c \"$(curl -sSfL ",
        INSTALL_SCRIPT_URL,
        ")\"",
    );
    let target = dest.ssh_dest();
    push_word(&mut args, target.as_str());
    push_word(&mut args, cmd.as_str());
    assert(text::views(args@) =~= base + seq![target@, cmd@]);
    args
}

/// The arguments of ssh that run the program on a remote host.
pub fn remote_gritty_args(
    dest: &Destination,
    gritty_args: &Vec<String>,
    ssh_options: &Vec<String>,
    connect_timeout: u64,
) -> (r: Vec<String>)
    ensures
        text::views(r@) == base_words(dest@, text::views(ssh_options@), true, connect_timeout)
            + seq![
            ssh_target(dest@),
            "PATH=\""@ + REMOTE_PATH_PREFIX@ + "\" gritty "@ + text::join(
                text::views(gritty_args@),
                " "@,
            ),
        ],
{
    let mut args = base_ssh_args(dest, ssh_options, true, connect_timeout);
    let ghost base = text::views(args@);
    let line = join_texts(gritty_args, " ");
    let cmd = cat4("PATH=\"", REMOTE_PATH_PREFIX, "\" gritty ", line.as_str());
    let target = dest.ssh_dest();
    push_word(&mut args, target.as_str());
    push_word(&mut args, cmd.as_str());
    assert(text::views(args@) =~= base + seq![target@, cmd@]);
    args
}

/// The command that makes sure that a server runs on the remote host. Its
/// output: the socket path, the protocol version, and a line with `ERR:` and
/// the reason where no server could be reached or started.
pub const REMOTE_ENSURE_CMD: &'static str = "SOCK=$(gritty socket-path) && V=$(gritty protocol-version 2>/dev/null || true) && LS_ERR=$(gritty ls local 2>&1 >/dev/null) && { echo \"$SOCK\"; echo \"$V\"; exit 0; }; gritty server >/dev/null 2>&1 && sleep 0.3 && { echo \"$SOCK\"; echo \"$V\"; exit 0; }; echo \"$SOCK\"; echo \"$V\"; echo \"ERR:$LS_ERR\"";

/// Why the remote server cannot be used.
#[derive(Debug, PartialEq, Eq)]
pub enum EnsureError {
    /// It could not be started, for this reason (which may be empty).
    Unusable(String),
    /// The remote host named no socket.
    NoSocket,
}

/// The outcome of [`REMOTE_ENSURE_CMD`] as a mathematical value.
pub enum Ensure {
    Ready(Seq<char>, Option<u16>),
    Unusable(Seq<char>),
    NoSocket,
}

/// What the lines of [`REMOTE_ENSURE_CMD`] say.
pub open spec fn ensure_outcome(lines: Seq<Seq<char>>) -> Ensure {
    let sock = if lines.len() > 0 {
        text::trimmed(lines[0])
    } else {
        Seq::<char>::empty()
    };
    let version = if lines.len() > 1 {
        port_number(text::trimmed(lines[1]))
    } else {
        None
    };
    if lines.len() > 2 && "ERR:"@.is_prefix_of(lines[2]) {
        Ensure::Unusable(text::trimmed(lines[2].skip("ERR:"@.len() as int)))
    } else if sock.len() == 0 {
        Ensure::NoSocket
    } else {
        Ensure::Ready(sock, version)
    }
}

/// Parse the output of [`REMOTE_ENSURE_CMD`]: socket path and protocol version.
pub fn parse_ensure_remote_output(output: &str) -> (r: Result<(String, Option<u16>), EnsureError>)
    ensures
        match (r, ensure_outcome(text::lines(output@))) {
            (Ok(a), Ensure::Ready(s, v)) => a.0@ == s && a.1 == v,
            (Err(EnsureError::Unusable(a)), Ensure::Unusable(b)) => a@ == b,
            (Err(EnsureError::NoSocket), Ensure::NoSocket) => true,
            _ => false,
        },
{
    let lines = lines_of(output);
    let ghost all = text::views(lines@);
    let sock = if lines.len() > 0 {
        assert(all[0] == lines@[0]@);
        trim(lines[0].as_str())
    } else {
        String::new()
    };
    let version: Option<u16> = if lines.len() > 1 {
        assert(all[1] == lines@[1]@);
        let v = trim(lines[1].as_str());
        parse_port(v.as_str())
    } else {
        None
    };
    if lines.len() > 2 {
        assert(all[2] == lines@[2]@);
        match after_prefix(lines[2].as_str(), "ERR:") {
            Some(reason) => {
                return Err(EnsureError::Unusable(trim(reason.as_str())));
            },
            None => {},
        }
    }
    if sock.as_str().is_empty() {
        return Err(EnsureError::NoSocket);
    }
    Ok((sock, version))
}

impl EnsureError {
    /// The error in words.
    pub fn message(&self) -> (r: String)
        ensures
            match *self {
                EnsureError::NoSocket => r@ == "remote host returned empty socket path"@,
                EnsureError::Unusable(reason) => if reason@.len() == 0 {
                    r@ == "remote daemon is unusable and could not be started"@
                } else {
                    r@ == "remote daemon is unusable and could not be started: "@ + reason@
                        + "\n  hint: `gritty restart <host>` kills the remote daemon and respawns the tunnel"@
                },
            },
    {
        match self {
            EnsureError::NoSocket => copy("remote host returned empty socket path"),
            EnsureError::Unusable(reason) => {
                if reason.as_str().is_empty() {
                    copy("remote daemon is unusable and could not be started")
                } else {
                    cat3(
                        "remote daemon is unusable and could not be started: ",
                        reason.as_str(),
                        "\n  hint: `gritty restart <host>` kills the remote daemon and respawns the tunnel",
                    )
                }
            },
        }
    }
}

/// A file of a tunnel, in the socket directory.
pub open spec fn tunnel_file(dir: Seq<char>, name: Seq<char>, ext: Seq<char>) -> Seq<char> {
    paths::joined(dir, "connect-"@ + name + ext)
}

fn tunnel_file_path(dir: &str, name: &str, ext: &str) -> (r: String)
    ensures
        r@ == tunnel_file(dir@, name@, ext@),
{
    let file = cat3("connect-", name, ext);
    join_path(dir, file.as_str())
}

/// The local end of a tunnel. It depends on the destination alone, so a client
/// finds a tunnel again after it was restarted.
pub fn local_socket_path(socket_dir: &str, destination: &str) -> (r: String)
    ensures
        r@ == tunnel_file(socket_dir@, destination@, ".sock"@),
{
    tunnel_file_path(socket_dir, destination, ".sock")
}

pub fn connect_pid_path(socket_dir: &str, connection_name: &str) -> (r: String)
    ensures
        r@ == tunnel_file(socket_dir@, connection_name@, ".pid"@),
{
    tunnel_file_path(socket_dir, connection_name, ".pid")
}

pub fn connect_lock_path(socket_dir: &str, connection_name: &str) -> (r: String)
    ensures
        r@ == tunnel_file(socket_dir@, connection_name@, ".lock"@),
{
    tunnel_file_path(socket_dir, connection_name, ".lock")
}

pub fn connect_dest_path(socket_dir: &str, connection_name: &str) -> (r: String)
    ensures
        r@ == tunnel_file(socket_dir@, connection_name@, ".dest"@),
{
    tunnel_file_path(socket_dir, connection_name, ".dest")
}

/// The file that records the ssh options of the command line, one per line, so
/// that they can be replayed. Options of the configuration are not among them.
pub fn connect_ssh_opts_path(socket_dir: &str, connection_name: &str) -> (r: String)
    ensures
        r@ == tunnel_file(socket_dir@, connection_name@, ".ssh-opts"@),
{
    tunnel_file_path(socket_dir, connection_name, ".ssh-opts")
}

/// The file that records which build the supervisor is.
pub fn connect_info_path(socket_dir: &str, connection_name: &str) -> (r: String)
    ensures
        r@ == tunnel_file(socket_dir@, connection_name@, ".info"@),
{
    tunnel_file_path(socket_dir, connection_name, ".info")
}

/// What a tunnel leaves behind, besides its lock and what outlives it.
pub open spec fn residue(dir: Seq<char>, name: Seq<char>) -> Seq<Seq<char>> {
    seq![
        tunnel_file(dir, name, ".sock"@),
        tunnel_file(dir, name, ".pid"@),
        tunnel_file(dir, name, ".info"@),
        tunnel_file(dir, name, ".dest"@),
        tunnel_file(dir, name, ".ssh-opts"@),
    ]
}

/// The files to remove after a tunnel, for whoever holds its lock. The lock
/// file is not among them: it is what makes their removal safe.
pub fn stale_files(socket_dir: &str, connection_name: &str) -> (r: Vec<String>)
    ensures
        text::views(r@) == residue(socket_dir@, connection_name@),
{
    let r = vec![
        local_socket_path(socket_dir, connection_name),
        connect_pid_path(socket_dir, connection_name),
        connect_info_path(socket_dir, connection_name),
        connect_dest_path(socket_dir, connection_name),
        connect_ssh_opts_path(socket_dir, connection_name),
    ];
    assert(text::views(r@) =~= residue(socket_dir@, connection_name@));
    r
}

/// The file that remembers the remote server's socket beyond the tunnel.
pub fn connect_remote_sock_path(socket_dir: &str, connection_name: &str) -> (r: String)
    ensures
        r@ == tunnel_file(socket_dir@, connection_name@, ".remote-sock"@),
{
    tunnel_file_path(socket_dir, connection_name, ".remote-sock")
}

pub fn connect_log_path(socket_dir: &str, connection_name: &str) -> (r: String)
    ensures
        r@ == tunnel_file(socket_dir@, connection_name@, ".log"@),
{
    tunnel_file_path(socket_dir, connection_name, ".log")
}

pub fn connect_out_path(socket_dir: &str, connection_name: &str) -> (r: String)
    ensures
        r@ == tunnel_file(socket_dir@, connection_name@, ".out"@),
{
    tunnel_file_path(socket_dir, connection_name, ".out")
}

/// The local socket for a connection name.
pub fn connection_socket_path(socket_dir: &str, connection_name: &str) -> (r: String)
    ensures
        r@ == tunnel_file(socket_dir@, connection_name@, ".sock"@),
{
    local_socket_path(socket_dir, connection_name)
}

/// The connection name in a file name `connect-<name><ext>`.
pub open spec fn name_in_file(file: Seq<char>, ext: Seq<char>) -> Option<Seq<char>> {
    let rest = file.skip("connect-"@.len() as int);
    if "connect-"@.is_prefix_of(file) && ext.is_suffix_of(rest) {
        Some(rest.take(rest.len() - ext.len()))
    } else {
        None
    }
}

/// The connection name in a file name `connect-<name><ext>`.
pub fn name_of_file(file: &str, ext: &str) -> (r: Option<String>)
    ensures
        r is Some <==> name_in_file(file@, ext@) is Some,
        r matches Some(n) ==> n@ == name_in_file(file@, ext@)->0,
{
    match after_prefix(file, "connect-") {
        None => None,
        Some(rest) => before_suffix(rest.as_str(), ext),
    }
}

/// The lock that belongs to a control socket, if the socket is a tunnel's: a
/// file `connect-<name>.sock` in the socket directory itself.
pub open spec fn socket_lock(dir: Seq<char>, ctl_path: Seq<char>) -> Option<Seq<char>> {
    match paths::parent(ctl_path) {
        None => None,
        Some(parent) => if !paths::same_path(parent, dir) {
            None
        } else {
            match paths::file_name(ctl_path) {
                None => None,
                Some(f) => match name_in_file(f, ".sock"@) {
                    None => None,
                    Some(n) => Some(tunnel_file(dir, n, ".lock"@)),
                },
            }
        },
    }
}

/// The lock that belongs to a control socket, if the socket is a tunnel's: a
/// held lock means that the tunnel is only respawning. A socket outside the
/// socket directory has none, whatever it is called.
pub fn ctl_socket_lock_path(socket_dir: &str, ctl_path: &str) -> (r: Option<String>)
    ensures
        r is Some <==> socket_lock(socket_dir@, ctl_path@) is Some,
        r matches Some(p) ==> p@ == socket_lock(socket_dir@, ctl_path@)->0,
{
    match parent_of(ctl_path) {
        None => {
            return None;
        },
        Some(parent) => {
            if !paths_equal(parent.as_str(), socket_dir) {
                return None;
            }
        },
    }
    match file_name_of(ctl_path) {
        None => None,
        Some(file) => match name_of_file(file.as_str(), ".sock") {
            None => None,
            Some(name) => Some(connect_lock_path(socket_dir, name.as_str())),
        },
    }
}

/// The tunnel of a lock file in the socket directory, by the file's name.
pub fn tunnel_of_lock_file(file: &str) -> (r: Option<String>)
    ensures
        r is Some <==> name_in_file(file@, ".lock"@) is Some,
        r matches Some(n) ==> n@ == name_in_file(file@, ".lock"@)->0,
{
    name_of_file(file, ".lock")
}

/// The tunnels that have lock files among the files of the socket directory.
pub open spec fn tunnel_names(files: Seq<Seq<char>>) -> Seq<Seq<char>>
    decreases files.len(),
{
    if files.len() == 0 {
        seq![]
    } else {
        let before = tunnel_names(files.drop_last());
        match name_in_file(files.last(), ".lock"@) {
            Some(n) => before.push(n),
            None => before,
        }
    }
}

/// The tunnels that have lock files among the files of the socket directory.
pub fn enumerate_tunnels(files: &Vec<String>) -> (r: Vec<String>)
    ensures
        text::views(r@) == tunnel_names(text::views(files@)),
{
    let mut r: Vec<String> = Vec::new();
    let ghost all = text::views(files@);
    let mut i: usize = 0;
    assert(all.take(0) == Seq::<Seq<char>>::empty());
    assert(text::views(r@) == tunnel_names(all.take(0)));
    while i < files.len()
        invariant
            i <= files.len(),
            all == text::views(files@),
            text::views(r@) == tunnel_names(all.take(i as int)),
        decreases files.len() - i,
    {
        proof {
            assert(all.take(i + 1).drop_last() == all.take(i as int));
            assert(all.take(i + 1).last() == files@[i as int]@);
        }
        match tunnel_of_lock_file(files[i].as_str()) {
            Some(n) => {
                proof {
                    text::lemma_views_push(r@, n);
                }
                r.push(n);
            },
            None => {},
        }
        i = i + 1;
    }
    assert(all.take(all.len() as int) == all);
    r
}

/// The lines of a text that hold anything.
pub open spec fn filled_lines(lines: Seq<Seq<char>>) -> Seq<Seq<char>>
    decreases lines.len(),
{
    if lines.len() == 0 {
        seq![]
    } else if lines.last().len() == 0 {
        filled_lines(lines.drop_last())
    } else {
        filled_lines(lines.drop_last()).push(lines.last())
    }
}

/// The ssh options that a tunnel's file records; none where there is no file.
pub fn read_persisted_ssh_options(contents: Option<&str>) -> (r: Vec<String>)
    ensures
        text::views(r@) == (match contents {
            Some(c) => filled_lines(text::lines(c@)),
            None => Seq::<Seq<char>>::empty(),
        }),
{
    let contents = match contents {
        None => {
            let r: Vec<String> = Vec::new();
            assert(text::views(r@) =~= Seq::<Seq<char>>::empty());
            return r;
        },
        Some(c) => c,
    };
    let lines = lines_of(contents);
    let ghost all = text::views(lines@);
    let mut r: Vec<String> = Vec::new();
    let mut i: usize = 0;
    assert(all.take(0) == Seq::<Seq<char>>::empty());
    assert(text::views(r@) == filled_lines(all.take(0)));
    while i < lines.len()
        invariant
            i <= lines.len(),
            all == text::views(lines@),
            text::views(r@) == filled_lines(all.take(i as int)),
        decreases lines.len() - i,
    {
        proof {
            assert(all.take(i + 1).drop_last() == all.take(i as int));
            assert(all.take(i + 1).last() == lines@[i as int]@);
        }
        if !lines[i].as_str().is_empty() {
            push_word(&mut r, lines[i].as_str());
        }
        i = i + 1;
    }
    assert(all.take(all.len() as int) == all);
    r
}

/// The arguments that create a tunnel again.
pub open spec fn recreate_words(
    name: Seq<char>,
    destination: Seq<char>,
    opts: Seq<Seq<char>>,
) -> Seq<Seq<char>> {
    seq!["tunnel-create"@, "--name"@, name] + option_words(opts) + seq![destination]
}

pub fn build_tunnel_recreate_args(
    connection_name: &str,
    destination: &str,
    ssh_options: &Vec<String>,
) -> (r: Vec<String>)
    ensures
        text::views(r@) == recreate_words(
            connection_name@,
            destination@,
            text::views(ssh_options@),
        ),
{
    let mut args: Vec<String> = Vec::new();
    push_word(&mut args, "tunnel-create");
    push_word(&mut args, "--name");
    push_word(&mut args, connection_name);
    assert(text::views(args@) =~= seq!["tunnel-create"@, "--name"@, connection_name@]);
    push_options(&mut args, ssh_options);
    let ghost head = text::views(args@);
    push_word(&mut args, destination);
    assert(text::views(args@) =~= head + seq![destination@]);
    args
}

/// The arguments that create a tunnel again, with the ssh options that its
/// file records (`None` where there is no such file).
pub fn tunnel_recreate_args(
    connection_name: &str,
    destination: &str,
    persisted: Option<&str>,
) -> (r: Vec<String>)
    ensures
        text::views(r@) == recreate_words(
            connection_name@,
            destination@,
            match persisted {
                Some(c) => filled_lines(text::lines(c@)),
                None => Seq::<Seq<char>>::empty(),
            },
        ),
{
    let opts = read_persisted_ssh_options(persisted);
    build_tunnel_recreate_args(connection_name, destination, &opts)
}

/// What names a file, however it is reached: an flock is held on this, not on
/// a path.
#[derive(Debug, Clone, Copy, PartialEq, Eq, Structural)]
pub struct LockIdentity {
    pub dev: u64,
    pub ino: u64,
}

impl LockIdentity {
    /// Whether the file that is now at the lock's path (if there is one) is
    /// the one that was locked.
    pub fn matches_path(self, at_path: Option<LockIdentity>) -> (r: bool)
        ensures
            r == (at_path == Some(self)),
    {
        match at_path {
            Some(id) => id == self,
            None => false,
        }
    }
}

/// Whether a lock counts as this supervisor's.
pub open spec fn is_owned(held: Option<LockIdentity>, at_path: Option<LockIdentity>) -> bool {
    held is None || at_path == held
}

/// Whether the files of a tunnel are this supervisor's to remove.
pub open spec fn is_removable(held: Option<LockIdentity>, at_path: Option<LockIdentity>) -> bool {
    held is Some && at_path == held
}

/// Files are removed only by the one who owns them for sure; in doubt a lock is
/// kept, and files are left.
pub proof fn law_in_doubt_nothing_is_taken_away(
    held: Option<LockIdentity>,
    at_path: Option<LockIdentity>,
    id: LockIdentity,
)
    ensures
        is_removable(held, at_path) ==> is_owned(held, at_path),
        is_owned(None, at_path) && !is_removable(None, at_path),
        is_owned(Some(id), Some(id)) && is_removable(Some(id), Some(id)),
        !is_owned(Some(id), None),
        held is Some && at_path is Some && held->0 != at_path->0 ==> !is_owned(held, at_path),
{
}

/// Whether a lock still belongs to this supervisor. An unknown identity counts
/// as owned, so that one failed look never takes a working tunnel down.
pub fn lock_still_owned(held: Option<LockIdentity>, at_path: Option<LockIdentity>) -> (r: bool)
    ensures
        r == is_owned(held, at_path),
{
    match held {
        None => true,
        Some(id) => id.matches_path(at_path),
    }
}

/// Whether a supervisor that ends may remove the tunnel's files: only if it
/// knows that the lock at the path is still its own.
pub fn may_remove_files(held: Option<LockIdentity>, at_path: Option<LockIdentity>) -> (r: bool)
    ensures
        r == is_removable(held, at_path),
{
    match held {
        None => false,
        Some(id) => id.matches_path(at_path),
    }
}

/// Whether a remote protocol version will do.
pub open spec fn version_ok(remote: u16, ignore: bool) -> bool {
    remote == PROTOCOL_VERSION || ignore
}

pub open spec fn version_text(remote: u16) -> Seq<char> {
    "remote protocol version ("@ + text::decimal(remote as nat) + ") differs from local ("@
        + text::decimal(PROTOCOL_VERSION as nat)
        + "); use --ignore-version-mismatch to connect anyway"@
}

/// Gate a connection on the remote protocol version, unless a mismatch is to
/// be ignored.
pub fn check_remote_protocol_version(remote: u16, ignore: bool) -> (r: Result<(), String>)
    ensures
        r is Ok <==> version_ok(remote, ignore),
        r matches Err(e) ==> e@ == version_text(remote),
{
    if remote == PROTOCOL_VERSION || ignore {
        return Ok(());
    }
    let a = decimal_text(remote as u64);
    let b = decimal_text(PROTOCOL_VERSION as u64);
    Err(
        cat5(
            "remote protocol version (",
            a.as_str(),
            ") differs from local (",
            b.as_str(),
            "); use --ignore-version-mismatch to connect anyway",
        ),
    )
}

/// Tunnel health status.
#[derive(Debug, Clone, Copy, PartialEq, Eq, Structural)]
pub enum TunnelStatus {
    Healthy,
    Reconnecting,
    Stale,
}

/// A tunnel's status.
pub open spec fn status_of(lock_held: bool, connectable: bool) -> TunnelStatus {
    if !lock_held {
        TunnelStatus::Stale
    } else if connectable {
        TunnelStatus::Healthy
    } else {
        TunnelStatus::Reconnecting
    }
}

/// A tunnel is stale exactly when nobody holds its lock, and healthy exactly
/// when somebody does and it takes connections.
pub proof fn law_a_lock_means_life(lock_held: bool, connectable: bool)
    ensures
        status_of(lock_held, connectable) is Stale <==> !lock_held,
        status_of(lock_held, connectable) is Healthy <==> lock_held && connectable,
        status_of(lock_held, connectable) is Reconnecting <==> lock_held && !connectable,
{
}

/// A tunnel's status: whose lock nobody holds is stale, else it is healthy
/// exactly when its socket takes connections.
pub fn probe_tunnel_status(lock_held: bool, connectable: bool) -> (r: TunnelStatus)
    ensures
        r == status_of(lock_held, connectable),
{
    if !lock_held {
        TunnelStatus::Stale
    } else if connectable {
        TunnelStatus::Healthy
    } else {
        TunnelStatus::Reconnecting
    }
}

/// The process number in a tunnel's pid file.
pub open spec fn pid_in(contents: Seq<char>) -> Option<u32> {
    match text::unsigned(text::trimmed(contents)) {
        Some(n) => if n <= u32::MAX {
            Some(n as u32)
        } else {
            None
        },
        None => None,
    }
}

/// A pid file tells the number that was written to it, with or without the end
/// of the line.
pub proof fn law_pid_files_read_back(pid: u32)
    ensures
        pid_in(text::decimal(pid as nat)) == Some(pid),
        pid_in(text::decimal(pid as nat).push('\n')) == Some(pid),
        pid_in(seq![]) is None,
{
    let d = text::decimal(pid as nat);
    text::law_decimal_round_trip(pid as nat);
    reveal_with_fuel(text::trim_end, 2);
    assert(text::is_digit_char(d[0]) && text::is_digit_char(d.last()));
    assert(text::trimmed(d) == d);
    let line = d.push('\n');
    assert(line[0] == d[0]);
    assert(text::is_space('\n'));
    assert(line.drop_last() =~= d);
    assert(text::trimmed(line) == d);
}

/// The process number in a tunnel's pid file.
pub fn read_pid_hint(contents: &str) -> (r: Option<u32>)
    ensures
        r == pid_in(contents@),
{
    let t = trim(contents);
    match parse_unsigned(t.as_str(), 0xffff_ffff) {
        Some(n) => Some(n as u32),
        None => None,
    }
}

pub struct TunnelInfo {
    pub name: String,
    pub destination: String,
    pub status: String,
    pub pid: Option<u32>,
    pub log_path: String,
}

/// What is listed of a tunnel; nothing if it is stale.
pub fn tunnel_info(
    socket_dir: &str,
    name: &str,
    status: TunnelStatus,
    dest_file: Option<&str>,
    pid: Option<u32>,
) -> (r: Option<TunnelInfo>)
    ensures
        r is None <==> status == TunnelStatus::Stale,
        r matches Some(i) ==> {
            &&& i.name@ == name@
            &&& i.destination@ == (match dest_file {
                Some(d) => text::trimmed(d@),
                None => "-"@,
            })
            &&& i.status@ == (if status == TunnelStatus::Healthy {
                "healthy"@
            } else {
                "reconnecting"@
            })
            &&& i.pid == pid
            &&& i.log_path@ == tunnel_file(socket_dir@, name@, ".log"@)
        },
{
    let word = match status {
        TunnelStatus::Stale => {
            return None;
        },
        TunnelStatus::Healthy => copy("healthy"),
        TunnelStatus::Reconnecting => copy("reconnecting"),
    };
    let destination = match dest_file {
        Some(d) => trim(d),
        None => copy("-"),
    };
    Some(
        TunnelInfo {
            name: copy(name),
            destination,
            status: word,
            pid,
            log_path: connect_log_path(socket_dir, name),
        },
    )
}

/// The columns of the list of tunnels.
pub fn tunnel_table_headers() -> (r: Vec<String>)
    ensures
        text::views(r@) == seq!["Name"@, "Destination"@, "Status"@],
{
    let r = vec![copy("Name"), copy("Destination"), copy("Status")];
    assert(text::views(r@) =~= seq!["Name"@, "Destination"@, "Status"@]);
    r
}

/// A row of the list of tunnels.
pub open spec fn tunnel_row(t: TunnelInfo) -> Seq<Seq<char>> {
    seq![t.name@, t.destination@, t.status@]
}

/// The list of tunnels: a row for each with its name, where it leads and how
/// it is. Nothing if there are none.
pub fn list_tunnels(infos: &Vec<TunnelInfo>) -> (r: Option<Vec<Vec<String>>>)
    ensures
        r is None <==> infos@.len() == 0,
        r matches Some(rows) ==> {
            &&& rows@.len() == infos@.len()
            &&& forall|i: int|
                0 <= i < infos@.len() ==> text::views((#[trigger] rows@[i])@) == tunnel_row(
                    infos@[i],
                )
        },
{
    if infos.len() == 0 {
        return None;
    }
    let mut rows: Vec<Vec<String>> = Vec::new();
    let mut i: usize = 0;
    while i < infos.len()
        invariant
            i <= infos@.len(),
            rows@.len() == i,
            forall|k: int|
                0 <= k < i ==> text::views((#[trigger] rows@[k])@) == tunnel_row(infos@[k]),
        decreases infos@.len() - i,
    {
        let row = vec![
            copy(infos[i].name.as_str()),
            copy(infos[i].destination.as_str()),
            copy(infos[i].status.as_str()),
        ];
        assert(text::views(row@) =~= tunnel_row(infos@[i as int]));
        rows.push(row);
        i = i + 1;
    }
    Some(rows)
}

/// What a tunnel in the background tells the process that started it: one
/// byte, then its process number, least significant byte first.
pub fn ready_signal(pid: u32) -> (r: Vec<u8>)
    ensures
        r@ == seq![
            1u8,
            (pid % 256) as u8,
            ((pid / 256) % 256) as u8,
            ((pid / 65536) % 256) as u8,
            (pid / 16777216) as u8,
        ],
{
    let mut r: Vec<u8> = Vec::new();
    r.push(1);
    r.push((pid % 256) as u8);
    r.push(((pid / 256) % 256) as u8);
    r.push(((pid / 65536) % 256) as u8);
    r.push((pid / 16777216) as u8);
    assert(r@ == seq![
        1u8,
        (pid % 256) as u8,
        ((pid / 256) % 256) as u8,
        ((pid / 65536) % 256) as u8,
        (pid / 16777216) as u8,
    ]);
    r
}

/// A tunnel's socket leads to its lock: the lock that is looked up for the
/// socket is the one that the tunnel holds.
pub proof fn law_socket_leads_to_lock(dir: Seq<char>, name: Seq<char>)
    requires
        !name.contains('/'),
    ensures
        socket_lock(dir, tunnel_file(dir, name, ".sock"@)) == Some(
            tunnel_file(dir, name, ".lock"@),
        ),
{
    let file = "connect-"@ + name + ".sock"@;
    text::lemma_strip_both("connect-"@, name, ".sock"@);
    reveal_strlit("connect-");
    reveal_strlit(".sock");
    reveal_strlit(".");
    reveal_strlit("..");
    assert(!file.contains('/')) by {
        if file.contains('/') {
            let i = choose|i: int| 0 <= i < file.len() && file[i] == '/';
            if 8 <= i < 8 + name.len() {
                assert(name[i - 8] == '/');
                assert(name.contains('/'));
            } else if i < 8 {
                assert(file[i] == "connect-"@[i]);
            } else {
                assert(file[i] == ".sock"@[i - 8 - name.len()]);
            }
        }
    }
    paths::law_join_then_take_apart(dir, file);
    paths::law_trimming_keeps_the_path(dir);
    let rest = file.skip("connect-"@.len() as int);
    assert(rest == name + ".sock"@);
    assert(rest.subrange(rest.len() - ".sock"@.len(), rest.len() as int) == ".sock"@);
    assert(rest.take(rest.len() - ".sock"@.len()) == name);
}

/// A valid connection name never leads out of the socket directory: its files
/// lie directly in it.
pub proof fn law_tunnel_files_stay_inside(dir: Seq<char>, name: Seq<char>, ext: Seq<char>)
    requires
        name_error(name) is None,
        !ext.contains('/'),
    ensures
        paths::parent(tunnel_file(dir, name, ext)) == Some(paths::trimmed(dir)),
        paths::file_name(tunnel_file(dir, name, ext)) == Some("connect-"@ + name + ext),
{
    let file = "connect-"@ + name + ext;
    reveal_strlit("connect-");
    reveal_strlit(".");
    reveal_strlit("..");
    assert(!file.contains('/')) by {
        if file.contains('/') {
            let i = choose|i: int| 0 <= i < file.len() && file[i] == '/';
            if 8 <= i < 8 + name.len() {
                assert(name[i - 8] == '/');
                assert(name.contains('/'));
            } else if i < 8 {
                assert(file[i] == "connect-"@[i]);
            } else {
                assert(ext[i - 8 - name.len()] == '/');
                assert(ext.contains('/'));
            }
        }
    }
    paths::law_join_then_take_apart(dir, file);
}

proof fn lemma_extensions_differ(dir: Seq<char>, name: Seq<char>, a: Seq<char>, b: Seq<char>)
    requires
        name_error(name) is None,
        !a.contains('/'),
        !b.contains('/'),
        a != b,
    ensures
        tunnel_file(dir, name, a) != tunnel_file(dir, name, b),
{
    law_tunnel_files_stay_inside(dir, name, a);
    law_tunnel_files_stay_inside(dir, name, b);
    let head = "connect-"@ + name;
    if head + a == head + b {
        assert((head + a).skip(head.len() as int) =~= a);
        assert((head + b).skip(head.len() as int) =~= b);
    }
}

/// Cleaning up after a tunnel spares its lock, and the memory of the remote
/// server's socket.
pub proof fn law_cleanup_spares_the_lock(dir: Seq<char>, name: Seq<char>)
    requires
        name_error(name) is None,
    ensures
        !residue(dir, name).contains(tunnel_file(dir, name, ".lock"@)),
        !residue(dir, name).contains(tunnel_file(dir, name, ".remote-sock"@)),
{
    reveal_strlit(".sock");
    reveal_strlit(".pid");
    reveal_strlit(".info");
    reveal_strlit(".dest");
    reveal_strlit(".ssh-opts");
    reveal_strlit(".lock");
    reveal_strlit(".remote-sock");
    assert(".pid"@[1] == 'p' && ".dest"@[1] == 'd' && ".sock"@[1] == 's' && ".info"@[1] == 'i');
    assert(".lock"@[1] == 'l' && ".remote-sock"@[1] == 'r' && ".ssh-opts"@[1] == 's');
    let exts = seq![".sock"@, ".pid"@, ".info"@, ".dest"@, ".ssh-opts"@];
    assert forall|i: int| 0 <= i < 5 implies (#[trigger] residue(dir, name)[i]) != tunnel_file(
        dir,
        name,
        ".lock"@,
    ) && residue(dir, name)[i] != tunnel_file(dir, name, ".remote-sock"@) by {
        assert(residue(dir, name)[i] == tunnel_file(dir, name, exts[i]));
        lemma_extensions_differ(dir, name, exts[i], ".lock"@);
        lemma_extensions_differ(dir, name, exts[i], ".remote-sock"@);
    }
}

/// What is said when a tunnel's socket never answered, with the last error and
/// its kind.
pub fn socket_wait_failure(secs: u64, path: &str, kind: &str, error: &str) -> (r: String)
    ensures
        r@ == "timed out after "@ + text::decimal(secs as nat)
            + "s waiting for SSH tunnel socket at "@ + path@ + " ("@ + kind@ + (": "@ + error@ + ")"@),
{
    let n = decimal_text(secs);
    let end = cat3(": ", error, ")");
    text::cat7(
        "timed out after ",
        n.as_str(),
        "s waiting for SSH tunnel socket at ",
        path,
        " (",
        kind,
        end.as_str(),
    )
}

/// What came of greeting the server at the other end of a tunnel.
#[derive(Clone, Copy, PartialEq, Eq, Structural)]
pub enum Greeting {
    NotConnected,
    NotSent,
    /// It greeted back.
    Answered { version: u16 },
    /// It said something else.
    Other,
    Garbled,
    Closed,
    TimedOut,
    /// It greeted back, but nothing more could be sent.
    Broken,
    /// All of it took too long.
    TooLong,
}

/// The version that a server at the other end of a tunnel speaks, or why it
/// counts as dead.
pub fn probe_answer(g: Greeting) -> (r: Result<u16, &'static str>)
    ensures
        match g {
            Greeting::Answered { version } => r == Ok::<u16, &'static str>(version),
            Greeting::NotConnected => r is Err && r->Err_0@ == "connect failed"@,
            Greeting::NotSent => r is Err && r->Err_0@ == "Hello send failed"@,
            Greeting::Other => r is Err && r->Err_0@ == "unexpected frame"@,
            Greeting::Garbled => r is Err && r->Err_0@ == "decode error"@,
            Greeting::Closed => r is Err && r->Err_0@ == "EOF before HelloAck"@,
            Greeting::TimedOut => r is Err && r->Err_0@ == "HelloAck timeout"@,
            Greeting::Broken => r is Err && r->Err_0@ == "ListSessions send failed"@,
            Greeting::TooLong => r is Err && r->Err_0@ == "probe timeout"@,
        },
{
    match g {
        Greeting::Answered { version } => Ok(version),
        Greeting::NotConnected => Err("connect failed"),
        Greeting::NotSent => Err("Hello send failed"),
        Greeting::Other => Err("unexpected frame"),
        Greeting::Garbled => Err("decode error"),
        Greeting::Closed => Err("EOF before HelloAck"),
        Greeting::TimedOut => Err("HelloAck timeout"),
        Greeting::Broken => Err("ListSessions send failed"),
        Greeting::TooLong => Err("probe timeout"),
    }
}

/// A destination means what it was put together from, with or without a user
/// and a port.
pub proof fn law_destinations_read_back(user: Seq<char>, host: Seq<char>, port: u16)
    requires
        user.len() > 0 && !user.contains('@'),
        host.len() > 0 && host[0] != '[',
        !host.contains('@') && !host.contains(':'),
    ensures
        ({
            let p = ":"@ + text::decimal(port as nat);
            &&& destination(host) == Ok::<Dest, DestinationError>(
                Dest { user: None, host, port: None },
            )
            &&& destination(host + p) == Ok::<Dest, DestinationError>(
                Dest { user: None, host, port: Some(port) },
            )
            &&& destination(user + "@"@ + host) == Ok::<Dest, DestinationError>(
                Dest { user: Some(user), host, port: None },
            )
            &&& destination(user + "@"@ + (host + p)) == Ok::<Dest, DestinationError>(
                Dest { user: Some(user), host, port: Some(port) },
            )
        }),
{
    reveal_strlit(":");
    reveal_strlit("@");
    let d = text::decimal(port as nat);
    text::law_decimal_round_trip(port as nat);
    let with_port = host + (":"@ + d);
    lemma_no_char(d, ':');
    lemma_no_char(d, '@');
    // host alone
    text::lemma_first_index_is(host, ':', host.len() as int);
    text::lemma_last_index(host, ':');
    assert(text::last_index(host, ':') < 0);
    // host and port
    assert(with_port[host.len() as int] == ':');
    text::lemma_first_index_is(with_port, ':', host.len() as int);
    lemma_last_colon(host, d);
    assert(with_port.take(host.len() as int) =~= host);
    assert(with_port.skip(host.len() as int + 1) =~= d);
    assert(with_port[0] == host[0]);
    assert(host_and_port(host) == Ok::<(Seq<char>, Option<u16>), DestinationError>((host, None)));
    assert(host_and_port(with_port) == Ok::<(Seq<char>, Option<u16>), DestinationError>(
        (host, Some(port)),
    ));
    assert forall|i: int| 0 <= i < with_port.len() implies #[trigger] with_port[i] != '@' by {
        if i > host.len() {
            assert(with_port[i] == d[i - host.len() - 1]);
        } else if i < host.len() {
            assert(with_port[i] == host[i]);
        }
    }
    text::lemma_first_index_is(host, '@', host.len() as int);
    text::lemma_first_index_is(with_port, '@', with_port.len() as int);
    lemma_first_at(user, host);
    lemma_first_at(user, with_port);
}

proof fn lemma_no_char(d: Seq<char>, c: char)
    requires
        text::all_digits(d),
        !text::is_digit_char(c),
    ensures
        forall|i: int| 0 <= i < d.len() ==> #[trigger] d[i] != c,
{
    assert forall|i: int| 0 <= i < d.len() implies #[trigger] d[i] != c by {
        assert(text::is_digit_char(d[i]));
    }
}

proof fn lemma_last_colon(host: Seq<char>, d: Seq<char>)
    requires
        forall|i: int| 0 <= i < d.len() ==> #[trigger] d[i] != ':',
    ensures
        text::last_index(host + (":"@ + d), ':') == host.len(),
{
    reveal_strlit(":");
    let s = host + (":"@ + d);
    text::lemma_last_index(s, ':');
    let k = text::last_index(s, ':');
    assert(s[host.len() as int] == ':');
    assert(s.contains(':'));
    if k > host.len() {
        assert(s[k] == d[k - host.len() - 1]);
    }
}

proof fn lemma_first_at(user: Seq<char>, rest: Seq<char>)
    requires
        !user.contains('@'),
    ensures
        text::first_index(user + "@"@ + rest, '@') == user.len(),
        (user + "@"@ + rest).take(user.len() as int) == user,
        (user + "@"@ + rest).skip(user.len() as int + 1) == rest,
{
    reveal_strlit("@");
    let s = user + "@"@ + rest;
    assert(s[user.len() as int] == '@');
    assert forall|i: int| 0 <= i < user.len() implies #[trigger] s[i] != '@' by {
        assert(s[i] == user[i]);
        assert(user.contains(user[i]));
    }
    text::lemma_first_index_is(s, '@', user.len() as int);
    assert(s.take(user.len() as int) =~= user);
    assert(s.skip(user.len() as int + 1) =~= rest);
}

/// Every option goes to ssh behind an `-o` of its own, in the order in which
/// they were given.
pub proof fn law_options_keep_their_order(opts: Seq<Seq<char>>, i: int)
    requires
        0 <= i < opts.len(),
    ensures
        option_words(opts).len() == 2 * opts.len(),
        option_words(opts)[2 * i] == "-o"@,
        option_words(opts)[2 * i + 1] == opts[i],
    decreases opts.len(),
{
    let init = opts.drop_last();
    if i < init.len() {
        law_options_keep_their_order(init, i);
    } else if init.len() > 0 {
        law_options_keep_their_order(init, 0);
    } else {
        assert(option_words(init) =~= Seq::<Seq<char>>::empty());
    }
}

/// The user's own options come before those that are added for every
/// connection, since ssh goes by the first that it meets.
pub proof fn law_own_options_come_first(
    d: Dest,
    opts: Seq<Seq<char>>,
    foreground: bool,
    connect_timeout: u64,
    i: int,
)
    requires
        0 <= i < opts.len(),
    ensures
        ({
            let w = base_words(d, opts, foreground, connect_timeout);
            let from = if d.port is Some {
                2int
            } else {
                0int
            };
            &&& w[from + 2 * i] == "-o"@ && w[from + 2 * i + 1] == opts[i]
            &&& d.port matches Some(p) ==> w[0] == "-p"@ && w[1] == text::decimal(p as nat)
            &&& w.len() == from + 2 * opts.len() + (if connect_timeout > 0 {
                2int
            } else {
                0int
            }) + (if foreground {
                0int
            } else {
                2int
            })
            &&& !foreground ==> w.last() == "BatchMode=yes"@
            &&& connect_timeout > 0 ==> w.contains(
                "ConnectTimeout="@ + text::decimal(connect_timeout as nat),
            )
        }),
{
    law_options_keep_their_order(opts, i);
    let w = base_words(d, opts, foreground, connect_timeout);
    let from = if d.port is Some {
        2int
    } else {
        0int
    };
    if connect_timeout > 0 {
        assert(w[from + 2 * opts.len() + 1] == "ConnectTimeout="@ + text::decimal(
            connect_timeout as nat,
        ));
    }
}

/// The tunnels that are listed are those that have a lock file, each by its
/// own name.
pub proof fn law_tunnels_are_known_by_their_locks(files: Seq<Seq<char>>, name: Seq<char>)
    ensures
        tunnel_names(files).contains(name) <==> files.contains("connect-"@ + name + ".lock"@),
    decreases files.len(),
{
    let f = "connect-"@ + name + ".lock"@;
    if files.len() > 0 {
        let init = files.drop_last();
        law_tunnels_are_known_by_their_locks(init, name);
        let before = tunnel_names(init);
        let all = tunnel_names(files);
        lemma_name_in_lock_file(files.last(), name);
        if init.contains(f) {
            let i = choose|i: int| 0 <= i < init.len() && init[i] == f;
            assert(files[i] == f);
            let k = choose|k: int| 0 <= k < before.len() && before[k] == name;
            assert(all[k] == name);
        }
        if files.last() == f {
            assert(files[files.len() - 1] == f);
            assert(all[all.len() - 1] == name);
        }
        if files.contains(f) && files.last() != f {
            let i = choose|i: int| 0 <= i < files.len() && files[i] == f;
            assert(init[i] == f);
        }
        if all.contains(name) && !before.contains(name) {
            let k = choose|k: int| 0 <= k < all.len() && all[k] == name;
            if k < before.len() {
                assert(before[k] == name);
            }
        }
    }
}

proof fn lemma_name_in_lock_file(file: Seq<char>, name: Seq<char>)
    ensures
        name_in_file(file, ".lock"@) == Some(name) <==> file == "connect-"@ + name + ".lock"@,
{
    reveal_strlit("connect-");
    reveal_strlit(".lock");
    let p = "connect-"@;
    let e = ".lock"@;
    let f = p + name + e;
    assert(f.subrange(0, p.len() as int) =~= p);
    assert(f.skip(p.len() as int) =~= name + e);
    assert((name + e).subrange((name + e).len() - e.len(), (name + e).len() as int) =~= e);
    assert((name + e).take(name.len() as int) =~= name);
    if name_in_file(file, e) == Some(name) {
        let rest = file.skip(p.len() as int);
        assert(file =~= p + rest);
        assert(rest.subrange(rest.len() - e.len(), rest.len() as int) =~= e);
        assert(rest =~= name + e);
        assert(file =~= f);
    }
}

/// A remote host that tells its socket and its version is ready, with these;
/// one that gives a reason why not is not, whatever else it tells.
pub proof fn law_remote_answers_read_back(sock: Seq<char>, version: u16, why: Seq<char>)
    requires
        sock.len() > 0,
        !text::is_space(sock[0]) && !text::is_space(sock.last()),
    ensures
        ensure_outcome(seq![sock, text::decimal(version as nat)]) == Ensure::Ready(
            sock,
            Some(version),
        ),
        ensure_outcome(seq![sock]) == Ensure::Ready(sock, None),
        ensure_outcome(seq![sock, text::decimal(version as nat), "ERR:"@ + why]) is Unusable,
        ensure_outcome(seq![]) is NoSocket,
        ensure_outcome(seq![Seq::<char>::empty()]) is NoSocket,
{
    text::law_decimal_round_trip(version as nat);
    let d = text::decimal(version as nat);
    assert(text::is_digit_char(d[0]) && text::is_digit_char(d.last()));
    assert(text::trimmed(d) == d);
    assert(text::trimmed(sock) == sock);
    reveal_strlit("ERR:");
    let e = "ERR:"@ + why;
    assert(e.subrange(0, 4) =~= "ERR:"@);
    assert("ERR:"@.is_prefix_of(e));
}

/// A tunnel is created again under its own name, to the place where it led, and
/// with each of its options.
pub proof fn law_recreated_tunnels_are_the_same(
    name: Seq<char>,
    dest: Seq<char>,
    opts: Seq<Seq<char>>,
    i: int,
)
    requires
        0 <= i < opts.len(),
    ensures
        ({
            let w = recreate_words(name, dest, opts);
            &&& w[0] == "tunnel-create"@ && w[1] == "--name"@ && w[2] == name
            &&& w.last() == dest
            &&& w[3 + 2 * i] == "-o"@ && w[3 + 2 * i + 1] == opts[i]
            &&& w.len() == 4 + 2 * opts.len()
        }),
{
    law_options_keep_their_order(opts, i);
}

/// A tunnel connects the local socket with the remote one, at the destination;
/// the user's options come before what every tunnel gets, and no tunnel carries
/// an agent or a display along.
pub proof fn law_tunnels_connect_the_two_sockets(
    d: Dest,
    local_sock: Seq<char>,
    remote_sock: Seq<char>,
    opts: Seq<Seq<char>>,
    foreground: bool,
    isolate: bool,
    timeout: u64,
)
    ensures
        ({
            let w = tunnel_words(d, local_sock, remote_sock, opts, foreground, isolate, timeout);
            let base = base_words(d, opts, foreground, timeout);
            let n = w.len();
            &&& base.is_prefix_of(w)
            &&& isolate ==> {
                &&& w[n - 4] == "-L"@ && w[n - 3] == local_sock + ":"@ + remote_sock
                &&& w.last() == ssh_target(d)
                &&& w.contains("ControlPath=none"@)
            }
            &&& !isolate ==> {
                &&& w[n - 4] == "-L"@ && w[n - 3] == local_sock + ":"@ + remote_sock
                &&& w[n - 2] == ssh_target(d)
            }
            &&& w.contains("ForwardAgent=no"@) && w.contains("ForwardX11=no"@)
            &&& w.contains("ExitOnForwardFailure=yes"@)
        }),
{
    let w = tunnel_words(d, local_sock, remote_sock, opts, foreground, isolate, timeout);
    let base = base_words(d, opts, foreground, timeout);
    let b = base.len() as int;
    assert(w.subrange(0, b) =~= base);
    assert(w[b + 7] == "ExitOnForwardFailure=yes"@);
    assert(w[b + 9] == "ForwardAgent=no"@);
    assert(w[b + 11] == "ForwardX11=no"@);
    if isolate {
        assert(w[b + 13] == "ControlPath=none"@);
    }
}

} // verus!
