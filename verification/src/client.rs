//! The client of a session: its settings and the socket through which port
//! forwards reach it.

use vstd::prelude::*;
use crate::paths;
use crate::paths::{file_stem_of, join_path, parent_of};
use crate::text;
use crate::text::{after_prefix, before_suffix, cat5, copy, cut_at_last, decimal_text, parse_unsigned, same};

verus! {

/// Configuration for a client session.
pub struct ClientConfig {
    pub session: String,
    pub session_id: u32,
    pub ctl_path: String,
    pub env_vars: Vec<(String, String)>,
    pub no_escape: bool,
    pub forward_agent: bool,
    pub forward_open: bool,
    pub oauth_redirect: bool,
    pub oauth_timeout: u64,
    pub heartbeat_interval: u64,
    pub heartbeat_timeout: u64,
    pub client_name: String,
    pub expected_server_id: u64,
    pub device_id: u64,
}

/// The host that a control socket belongs to: `local` for the local server's,
/// the tunnel's name for a tunnel's, else the file name without extension.
pub open spec fn socket_host(ctl_path: Seq<char>) -> Seq<char> {
    match paths::file_stem(ctl_path) {
        None => "unknown"@,
        Some(s) => if s == "ctl"@ {
            "local"@
        } else if "connect-"@.is_prefix_of(s) {
            s.skip("connect-"@.len() as int)
        } else {
            s
        },
    }
}

/// The file name of a forward socket.
pub open spec fn forward_socket_name(host: Seq<char>, session_id: u32) -> Seq<char> {
    "fwd-"@ + host + "-"@ + text::decimal(session_id as nat) + ".sock"@
}

/// Compute the path for the forward socket used by `lf` and `rf`: beside the
/// control socket, keyed on the numeric session id, which no rename changes.
pub fn forward_socket_path(ctl_path: &str, session_id: u32) -> (r: String)
    ensures
        r@ == paths::joined(
            match paths::parent(ctl_path@) {
                Some(p) => p,
                None => "."@,
            },
            forward_socket_name(socket_host(ctl_path@), session_id),
        ),
{
    let dir = match parent_of(ctl_path) {
        Some(p) => p,
        None => copy("."),
    };
    let host = match file_stem_of(ctl_path) {
        None => copy("unknown"),
        Some(s) => if same(s.as_str(), "ctl") {
            copy("local")
        } else {
            match after_prefix(s.as_str(), "connect-") {
                Some(t) => t,
                None => s,
            }
        },
    };
    let id = decimal_text(session_id as u64);
    let name = cat5("fwd-", host.as_str(), "-", id.as_str(), ".sock");
    join_path(dir.as_str(), name.as_str())
}

/// Host and session id of a forward socket's file name: the id is what follows
/// the last hyphen, so the host may hold hyphens.
pub open spec fn forward_socket_parts(name: Seq<char>) -> Option<(Seq<char>, u32)> {
    if "fwd-"@.is_prefix_of(name) && ".sock"@.is_suffix_of(name) && name.len() >= "fwd-"@.len()
        + ".sock"@.len() {
        let body = name.skip("fwd-"@.len() as int).take(
            name.len() - "fwd-"@.len() - ".sock"@.len(),
        );
        let k = text::last_index(body, '-');
        let id = body.skip(k + 1);
        if k >= 0 && text::unsigned(id) is Some && text::unsigned(id)->0 <= u32::MAX {
            Some((body.take(k), text::unsigned(id)->0 as u32))
        } else {
            None
        }
    } else {
        None
    }
}

/// Take the file name of a forward socket apart into host and session id.
pub fn parse_forward_socket_name(name: &str) -> (r: Option<(String, u32)>)
    ensures
        r is Some <==> forward_socket_parts(name@) is Some,
        r matches Some(p) ==> (p.0@, p.1) == forward_socket_parts(name@)->0,
{
    proof {
        reveal_strlit("fwd-");
        reveal_strlit(".sock");
    }
    let rest = match after_prefix(name, "fwd-") {
        None => {
            return None;
        },
        Some(r) => r,
    };
    proof {
        if rest@.len() >= 5 {
            assert(rest@.subrange(rest@.len() - 5, rest@.len() as int) == name@.subrange(
                name@.len() - 5,
                name@.len() as int,
            ));
        }
    }
    let body = match before_suffix(rest.as_str(), ".sock") {
        None => {
            return None;
        },
        Some(b) => b,
    };
    proof {
        text::lemma_last_index(body@, '-');
    }
    match cut_at_last(body.as_str(), '-') {
        None => None,
        Some((host, id)) => match parse_unsigned(id.as_str(), 0xffff_ffff) {
            None => None,
            Some(n) => Some((host, n as u32)),
        },
    }
}

proof fn lemma_last_hyphen(host: Seq<char>, d: Seq<char>)
    requires
        text::all_digits(d),
    ensures
        text::last_index(host.push('-') + d, '-') == host.len(),
    decreases d.len(),
{
    let s = host.push('-') + d;
    if d.len() == 0 {
        assert(s == host.push('-'));
    } else {
        assert(text::is_digit_char(d[d.len() - 1]));
        assert(s.drop_last() == host.push('-') + d.drop_last());
        assert forall|i: int| 0 <= i < d.drop_last().len() implies text::is_digit_char(
            #[trigger] d.drop_last()[i],
        ) by {
            assert(d.drop_last()[i] == d[i]);
        }
        lemma_last_hyphen(host, d.drop_last());
    }
}

/// A forward socket's name tells its host and session again, whatever the host
/// is called.
pub proof fn law_forward_socket_name_round_trip(host: Seq<char>, session_id: u32)
    ensures
        forward_socket_parts(forward_socket_name(host, session_id)) == Some((host, session_id)),
{
    reveal_strlit("-");
    let d = text::decimal(session_id as nat);
    text::law_decimal_round_trip(session_id as nat);
    let body = host.push('-') + d;
    assert("fwd-"@ + host + "-"@ + d + ".sock"@ == "fwd-"@ + body + ".sock"@) by {
        assert("-"@ == seq!['-']);
    }
    text::lemma_strip_both("fwd-"@, body, ".sock"@);
    lemma_last_hyphen(host, d);
    assert(body.take(host.len() as int) == host);
    assert(body.skip(host.len() as int + 1) == d);
}

/// The size of the terminal, or the usual one where there is none.
pub fn terminal_size_or_default(size: Option<(u16, u16)>) -> (r: (u16, u16))
    ensures
        r == match size {
            Some(s) => s,
            None => (80u16, 24u16),
        },
{
    match size {
        Some(s) => s,
        None => (80, 24),
    }
}

/// The programs that set the clipboard, with their arguments: the first that
/// can be run is used.
pub open spec fn clipboard_words(macos: bool) -> Seq<Seq<Seq<char>>> {
    if macos {
        seq![seq!["pbcopy"@]]
    } else {
        seq![
            seq!["wl-copy"@],
            seq!["xclip"@, "-selection"@, "clipboard"@],
            seq!["xsel"@, "--clipboard"@, "--input"@],
        ]
    }
}

/// The programs that set the clipboard, with their arguments.
pub fn clipboard_programs(macos: bool) -> (r: Vec<Vec<String>>)
    ensures
        r@.map_values(|v: Vec<String>| text::views(v@)) == clipboard_words(macos),
{
    let ghost each = |v: Vec<String>| text::views(v@);
    if macos {
        let one = vec![copy("pbcopy")];
        assert(text::views(one@) =~= seq!["pbcopy"@]);
        let r = vec![one];
        assert(r@.map_values(each) =~= clipboard_words(true));
        r
    } else {
        let a = vec![copy("wl-copy")];
        let b = vec![copy("xclip"), copy("-selection"), copy("clipboard")];
        let c = vec![copy("xsel"), copy("--clipboard"), copy("--input")];
        assert(text::views(a@) =~= seq!["wl-copy"@]);
        assert(text::views(b@) =~= seq!["xclip"@, "-selection"@, "clipboard"@]);
        assert(text::views(c@) =~= seq!["xsel"@, "--clipboard"@, "--input"@]);
        let r = vec![a, b, c];
        assert(r@.map_values(each) =~= clipboard_words(false));
        r
    }
}

/// The control socket of a tunnel tells the tunnel's name again, and that of
/// the local server that it is the local one.
pub proof fn law_sockets_tell_their_host(dir: Seq<char>, name: Seq<char>)
    requires
        !name.contains('/'),
    ensures
        socket_host(paths::joined(dir, "connect-"@ + name + ".sock"@)) == name,
        socket_host(paths::joined(dir, "ctl.sock"@)) == "local"@,
{
    reveal_strlit("connect-");
    reveal_strlit(".sock");
    reveal_strlit("ctl.sock");
    reveal_strlit("ctl");
    reveal_strlit(".");
    reveal_strlit("..");
    let front = "connect-"@ + name;
    let f = front + ".sock"@;
    assert("connect-"@ + name + ".sock"@ == f);
    assert(!f.contains('/')) by {
        if f.contains('/') {
            let i = choose|i: int| 0 <= i < f.len() && f[i] == '/';
            if 8 <= i < front.len() {
                assert(f[i] == name[i - 8]);
                assert(name.contains(name[i - 8]));
            }
        }
    }
    paths::law_join_then_take_apart(dir, f);
    lemma_stem(front);
    assert(front.subrange(0, 8) =~= "connect-"@);
    assert(front.skip(8) =~= name);
    assert(front != "ctl"@);
    let c = "ctl.sock"@;
    assert(c =~= "ctl"@ + ".sock"@);
    assert(!c.contains('/')) by {
        if c.contains('/') {
            let i = choose|i: int| 0 <= i < c.len() && c[i] == '/';
            assert(c.len() == 8);
        }
    }
    paths::law_join_then_take_apart(dir, c);
    lemma_stem("ctl"@);
}

proof fn lemma_stem(front: Seq<char>)
    requires
        front.len() > 0,
    ensures
        paths::stem(front + ".sock"@) == front,
{
    reveal_strlit(".sock");
    let f = front + ".sock"@;
    text::lemma_last_index(f, '.');
    let k = text::last_index(f, '.');
    let n = front.len() as int;
    assert(f[n] == '.');
    assert(f.contains('.'));
    assert(f[n + 1] == 's' && f[n + 2] == 'o' && f[n + 3] == 'c' && f[n + 4] == 'k');
    assert(k == n);
    assert(f.take(n) =~= front);
}

} // verus!
