//! The small commands: the clipboard and the browser of the attached client,
//! the editor for the config, and `info`.

use vstd::prelude::*;
use crate::config::ConfigStatus;
use crate::connect::TunnelInfo;
use crate::outside;
use crate::protocol::ErrorCode;
use crate::text;
use crate::text::{cat2, cat3, cat4, cat5, copy, count_text, decimal_text, pad_right};

verus! {

/// What is said and how a small command ends. An empty text says nothing.
pub struct Ending {
    pub say: String,
    pub exit_code: i32,
}

/// How copying to the client's clipboard ends: the exit code and what is said.
pub open spec fn clipboard_ending(answer: Option<u8>) -> (i32, Seq<char>) {
    match answer {
        Some(b) => if b == 0 {
            (
                1i32,
                "error: clipboard not delivered -- no client is attached, or it lacks clipboard support"@,
            )
        } else {
            (0i32, ""@)
        },
        None => (0i32, "warning: could not confirm clipboard was set (server may be older)"@),
    }
}

/// Copying fails exactly where the server says that it did not work, and is
/// silent exactly where the server says that it did.
pub proof fn law_copying_tells_what_became_of_it(answer: Option<u8>)
    ensures
        clipboard_ending(answer).0 != 0 <==> answer == Some(0u8),
        clipboard_ending(answer).1.len() == 0 <==> answer is Some && answer != Some(0u8),
{
    reveal_strlit("");
    reveal_strlit(
        "error: clipboard not delivered -- no client is attached, or it lacks clipboard support",
    );
    reveal_strlit("warning: could not confirm clipboard was set (server may be older)");
}

/// How copying to the client's clipboard ends, by the byte that the server
/// answered, if it answered.
pub fn clipboard_reply(answer: Option<u8>) -> (r: Ending)
    ensures
        (r.exit_code, r.say@) == clipboard_ending(answer),
{
    match answer {
        Some(b) => if b == 0 {
            Ending {
                say: copy(
                    "error: clipboard not delivered -- no client is attached, or it lacks clipboard support",
                ),
                exit_code: 1,
            }
        } else {
            Ending { say: copy(""), exit_code: 0 }
        },
        None => Ending {
            say: copy("warning: could not confirm clipboard was set (server may be older)"),
            exit_code: 0,
        },
    }
}

/// How handing a URL to the client ends: the exit code and what is said.
pub open spec fn url_ending(answer: Option<u8>, url: Seq<char>, is_browser_shim: bool) -> (
    i32,
    Seq<char>,
) {
    match answer {
        Some(b) => if b != 0 {
            (0i32, ""@)
        } else if is_browser_shim {
            (
                0i32,
                "gritty: could not open URL in your browser (URL forwarding is off or no client is attached); open it manually:\n  "@
                    + url,
            )
        } else {
            (1i32, "error: no client is connected with --forward-open"@)
        },
        None => (0i32, "warning: could not confirm URL was forwarded (server may be older)"@),
    }
}

/// A URL that was opened needs no word; one that was not fails the command,
/// but for another tool's helper, which prints the URL instead of failing.
pub proof fn law_urls_are_never_lost(answer: Option<u8>, url: Seq<char>, is_browser_shim: bool)
    ensures
        url_ending(answer, url, is_browser_shim).0 != 0 <==> answer == Some(0u8)
            && !is_browser_shim,
        url_ending(answer, url, is_browser_shim).1.len() == 0 <==> answer is Some && answer != Some(
            0u8,
        ),
        answer == Some(0u8) && is_browser_shim ==> url.is_suffix_of(
            url_ending(answer, url, is_browser_shim).1,
        ),
{
    reveal_strlit("");
    reveal_strlit("error: no client is connected with --forward-open");
    reveal_strlit("warning: could not confirm URL was forwarded (server may be older)");
    reveal_strlit(
        "gritty: could not open URL in your browser (URL forwarding is off or no client is attached); open it manually:\n  ",
    );
    let s = url_ending(answer, url, is_browser_shim).1;
    if answer == Some(0u8) && is_browser_shim {
        assert(s.subrange(s.len() - url.len(), s.len() as int) =~= url);
    }
}

/// How handing a URL to the client ends. As the helper of another tool it never
/// fails that tool: the URL is printed for opening by hand.
pub fn open_url_reply(answer: Option<u8>, url: &str, is_browser_shim: bool) -> (r: Ending)
    ensures
        (r.exit_code, r.say@) == url_ending(answer, url@, is_browser_shim),
        is_browser_shim ==> r.exit_code == 0,
{
    match answer {
        Some(b) => if b != 0 {
            Ending { say: copy(""), exit_code: 0 }
        } else if is_browser_shim {
            Ending {
                say: cat2(
                    "gritty: could not open URL in your browser (URL forwarding is off or no client is attached); open it manually:\n  ",
                    url,
                ),
                exit_code: 0,
            }
        } else {
            Ending {
                say: copy("error: no client is connected with --forward-open"),
                exit_code: 1,
            }
        },
        None => Ending {
            say: copy("warning: could not confirm URL was forwarded (server may be older)"),
            exit_code: 0,
        },
    }
}

/// The words of a sequence that hold anything.
pub open spec fn filled(words: Seq<Seq<char>>) -> Seq<Seq<char>>
    decreases words.len(),
{
    if words.len() == 0 {
        seq![]
    } else if words.last().len() > 0 {
        filled(words.drop_last()).push(words.last())
    } else {
        filled(words.drop_last())
    }
}

/// The program and its arguments: `vi` where there is no word at all.
pub open spec fn program_of(words: Seq<Seq<char>>) -> (Seq<char>, Seq<Seq<char>>) {
    let f = filled(words);
    if f.len() == 0 {
        ("vi"@, seq![])
    } else {
        (f[0], f.skip(1))
    }
}

pub open spec fn program_view(p: (String, Vec<String>)) -> (Seq<char>, Seq<Seq<char>>) {
    (p.0@, text::views(p.1@))
}

/// The program and its arguments, given the words of an editor setting. One
/// whose quotes do not match is taken as a single word.
pub fn editor_from(words: Option<Vec<String>>, editor: &str) -> (r: (String, Vec<String>))
    ensures
        program_view(r) == program_of(
            match words {
                Some(w) => text::views(w@),
                None => seq![editor@],
            },
        ),
{
    let parts = match words {
        Some(w) => w,
        None => {
            let one = vec![copy(editor)];
            assert(text::views(one@) =~= seq![editor@]);
            one
        },
    };
    let ghost all = text::views(parts@);
    let mut first: Option<String> = None;
    let mut rest: Vec<String> = Vec::new();
    let mut i: usize = 0;
    assert(all.take(0) == Seq::<Seq<char>>::empty());
    assert(text::views(rest@) =~= Seq::<Seq<char>>::empty());
    while i < parts.len()
        invariant
            i <= parts@.len(),
            all == text::views(parts@),
            match first {
                Some(p) => filled(all.take(i as int)) == seq![p@] + text::views(rest@),
                None => filled(all.take(i as int)).len() == 0 && rest@.len() == 0,
            },
        decreases parts@.len() - i,
    {
        assert(all.take(i + 1).drop_last() == all.take(i as int));
        assert(all.take(i + 1).last() == parts@[i as int]@);
        if parts[i].as_str().unicode_len() > 0 {
            let w = copy(parts[i].as_str());
            let ghost before = filled(all.take(i as int));
            if first.is_some() {
                proof {
                    text::lemma_views_push(rest@, w);
                    assert(before.push(w@) =~= seq![first->0@] + text::views(rest@).push(w@));
                }
                rest.push(w);
            } else {
                proof {
                    assert(before.push(w@) =~= seq![w@] + text::views(rest@));
                }
                first = Some(w);
            }
        }
        i = i + 1;
    }
    assert(all.take(i as int) == all);
    match first {
        Some(p) => {
            assert(filled(all).skip(1) =~= text::views(rest@));
            (p, rest)
        },
        None => {
            assert(text::views(rest@) =~= Seq::<Seq<char>>::empty());
            (copy("vi"), rest)
        },
    }
}

/// Split an editor setting into a program and its arguments, by the rules of
/// the shell.
pub fn parse_editor(editor: &str) -> (r: (String, Vec<String>))
    ensures
        program_view(r) == program_of(
            match outside::shell_words(editor@) {
                Some(w) => w,
                None => seq![editor@],
            },
        ),
{
    editor_from(outside::split_words(editor), editor)
}

pub open spec fn config_word(s: ConfigStatus) -> Seq<char> {
    match s {
        ConfigStatus::NotFound => "not found"@,
        ConfigStatus::Invalid(e) => "INVALID -- ignored: "@ + e@,
        ConfigStatus::Valid(c) => if c.host@.len() == 0 {
            "loaded"@
        } else {
            "loaded, "@ + text::counted(c.host@.len(), "host"@)
        },
    }
}

/// How the config file is, for `info`.
pub fn config_summary(s: &ConfigStatus) -> (r: String)
    ensures
        r@ == config_word(*s),
{
    match s {
        ConfigStatus::NotFound => copy("not found"),
        ConfigStatus::Invalid(e) => cat2("INVALID -- ignored: ", e.as_str()),
        ConfigStatus::Valid(c) => if c.host.len() == 0 {
            copy("loaded")
        } else {
            cat2("loaded, ", count_text(c.host.len(), "host").as_str())
        },
    }
}

/// What the local server answered, for `info`.
pub enum InfoProbe {
    /// It lists this many sessions.
    Sessions(usize),
    /// It speaks another protocol.
    Mismatch,
    /// It did not answer, or with something else.
    Silent,
}

/// The answer to a request for the sessions, for `info`.
pub fn info_probe(sessions: Option<usize>, error: Option<ErrorCode>) -> (r: InfoProbe)
    ensures
        match sessions {
            Some(n) => r == InfoProbe::Sessions(n),
            None => if error == Some(ErrorCode::VersionMismatch) {
                r is Mismatch
            } else {
                r is Silent
            },
        },
{
    match sessions {
        Some(n) => InfoProbe::Sessions(n),
        None => match error {
            Some(code) => if code == ErrorCode::VersionMismatch {
                InfoProbe::Mismatch
            } else {
                InfoProbe::Silent
            },
            None => InfoProbe::Silent,
        },
    }
}

pub open spec fn server_status(p: InfoProbe, pid: Option<u32>) -> Seq<char> {
    let who = match pid {
        Some(n) => "pid "@ + text::decimal(n as nat) + ", "@,
        None => ""@,
    };
    match p {
        InfoProbe::Sessions(n) => "server status:  running ("@ + who + text::counted(
            n as nat,
            "session"@,
        ) + ")"@,
        InfoProbe::Mismatch => "server status:  running ("@ + who
            + "protocol version mismatch -- run `gritty refresh`)"@,
        InfoProbe::Silent => "server status:  not running"@,
    }
}

/// How the local server is, for `info`: one that speaks another protocol still
/// runs.
pub fn server_status_line(p: &InfoProbe, pid: Option<u32>) -> (r: String)
    ensures
        r@ == server_status(*p, pid),
{
    let who = match pid {
        Some(n) => cat3("pid ", decimal_text(n as u64).as_str(), ", "),
        None => copy(""),
    };
    match p {
        InfoProbe::Sessions(n) => cat4(
            "server status:  running (",
            who.as_str(),
            count_text(*n, "session").as_str(),
            ")",
        ),
        InfoProbe::Mismatch => cat3(
            "server status:  running (",
            who.as_str(),
            "protocol version mismatch -- run `gritty refresh`)",
        ),
        InfoProbe::Silent => copy("server status:  not running"),
    }
}

/// A place with its label, and a word where nothing is there.
pub open spec fn place(label: Seq<char>, path: Seq<char>, exists: bool) -> Seq<char> {
    label + " "@ + path + (if exists {
        ""@
    } else {
        " (not found)"@
    })
}

/// A place with its label, and a word where nothing is there.
pub fn path_line(label: &str, path: &str, exists: bool) -> (r: String)
    ensures
        r@ == place(label@, path@, exists),
{
    let end = if exists {
        ""
    } else {
        " (not found)"
    };
    cat4(label, " ", path, end)
}

/// A tunnel in `info`.
pub open spec fn tunnel_row(t: TunnelInfo) -> Seq<char> {
    "  "@ + text::padded(t.name@, 14) + t.status@ + (match t.pid {
        Some(p) => " (pid "@ + text::decimal(p as nat) + ")"@,
        None => ""@,
    })
}

/// A tunnel in `info`.
pub fn tunnel_info_line(t: &TunnelInfo) -> (r: String)
    ensures
        r@ == tunnel_row(*t),
{
    let name = pad_right(t.name.as_str(), 14);
    let pid = match t.pid {
        Some(p) => cat3(" (pid ", decimal_text(p as u64).as_str(), ")"),
        None => copy(""),
    };
    cat4("  ", name.as_str(), t.status.as_str(), pid.as_str())
}

/// What `info` shows.
pub struct InfoFacts {
    pub version: String,
    pub config_path: String,
    pub config: ConfigStatus,
    pub socket_dir: String,
    pub ctl_path: String,
    pub device_id: u64,
    pub device_id_path: String,
    pub probe: InfoProbe,
    pub pid: Option<u32>,
    /// The server's log and output, each with whether it exists.
    pub log: (String, bool),
    pub out: (String, bool),
    /// The tunnels, each with whether its log exists.
    pub tunnels: Vec<(TunnelInfo, bool)>,
}

/// The tunnels in `info`, two lines for each.
pub open spec fn tunnel_rows(v: Seq<(TunnelInfo, bool)>) -> Seq<Seq<char>>
    decreases v.len(),
{
    if v.len() == 0 {
        seq![]
    } else {
        tunnel_rows(v.drop_last()).push(tunnel_row(v.last().0)).push(
            place("                log:"@, v.last().0.log_path@, v.last().1),
        )
    }
}

/// The lines of `info`.
pub open spec fn info_text(f: InfoFacts) -> Seq<Seq<char>> {
    seq![
        "gritty "@ + f.version@,
        ""@,
        "config:         "@ + f.config_path@ + " ("@ + config_word(f.config) + ")"@,
        "socket dir:     "@ + f.socket_dir@,
        "server socket:  "@ + f.ctl_path@,
        "device id:      "@ + text::decimal(f.device_id as nat) + " ("@ + f.device_id_path@ + ")"@,
        server_status(f.probe, f.pid),
        place("server log:    "@, f.log.0@, f.log.1),
        place("server output: "@, f.out.0@, f.out.1),
    ] + (if f.tunnels@.len() == 0 {
        seq![]
    } else {
        seq![""@, "tunnels:"@] + tunnel_rows(f.tunnels@)
    })
}

/// The lines of `info`: the program, its settings, the local server and the
/// tunnels.
pub fn info_lines(f: &InfoFacts) -> (r: Vec<String>)
    ensures
        text::views(r@) == info_text(*f),
{
    let config = config_summary(&f.config);
    let device = decimal_text(f.device_id);
    let mut r: Vec<String> = vec![
        cat2("gritty ", f.version.as_str()),
        copy(""),
        cat5("config:         ", f.config_path.as_str(), " (", config.as_str(), ")"),
        cat2("socket dir:     ", f.socket_dir.as_str()),
        cat2("server socket:  ", f.ctl_path.as_str()),
        cat5("device id:      ", device.as_str(), " (", f.device_id_path.as_str(), ")"),
        server_status_line(&f.probe, f.pid),
        path_line("server log:    ", f.log.0.as_str(), f.log.1),
        path_line("server output: ", f.out.0.as_str(), f.out.1),
    ];
    if f.tunnels.len() == 0 {
        assert(text::views(r@) =~= info_text(*f));
        return r;
    }
    r.push(copy(""));
    r.push(copy("tunnels:"));
    let ghost head = text::views(r@);
    assert(tunnel_rows(f.tunnels@.take(0)) =~= seq![]);
    let mut i: usize = 0;
    while i < f.tunnels.len()
        invariant
            i <= f.tunnels@.len(),
            text::views(r@) =~= head + tunnel_rows(f.tunnels@.take(i as int)),
        decreases f.tunnels@.len() - i,
    {
        let t = &f.tunnels[i];
        let row = tunnel_info_line(&t.0);
        let log = path_line("                log:", t.0.log_path.as_str(), t.1);
        proof {
            text::lemma_views_push(r@, row);
            text::lemma_views_push(r@.push(row), log);
            let more = f.tunnels@.take(i + 1);
            assert(more.drop_last() =~= f.tunnels@.take(i as int));
            assert(more.last() == f.tunnels@[i as int]);
        }
        r.push(row);
        r.push(log);
        i = i + 1;
    }
    assert(f.tunnels@.take(f.tunnels@.len() as int) =~= f.tunnels@);
    assert(text::views(r@) =~= info_text(*f));
    r
}

} // verus!
