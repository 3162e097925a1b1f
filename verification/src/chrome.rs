//! What the client prints about the connection itself, and the clocks behind
//! it: the reconnect status line, banners, backoff and liveness.

use vstd::prelude::*;
use crate::outside;
use crate::outside::binary_size;
use crate::text;
use crate::text::{cat3, copy, decimal_text, starts_with};

verus! {

/// First sleep between reconnect attempts, in milliseconds. Doubled on each
/// failure, capped at [`RECONNECT_BACKOFF_MAX`], reset on success.
pub const RECONNECT_BACKOFF_INITIAL: u64 = 1000;

/// Upper bound on the reconnect sleep, in milliseconds.
pub const RECONNECT_BACKOFF_MAX: u64 = 10000;

/// How long a reconnect may last before anything is painted, in milliseconds.
pub const RECONNECT_CHROME_DELAY: u64 = 1000;

/// How long the control socket may be missing before the client gives up, in
/// milliseconds.
pub const SOCKET_GONE_GRACE: u64 = 3000;

/// Seconds between heartbeats, and without a sign of life, of a tail.
pub const DEFAULT_HEARTBEAT_INTERVAL: u64 = 10;

pub const DEFAULT_HEARTBEAT_TIMEOUT: u64 = 60;

/// The sleep that follows a sleep of `prev` milliseconds.
pub open spec fn next_delay(prev: u64) -> u64 {
    if prev < RECONNECT_BACKOFF_INITIAL {
        RECONNECT_BACKOFF_INITIAL
    } else if prev * 2 <= RECONNECT_BACKOFF_MAX {
        (prev * 2) as u64
    } else {
        RECONNECT_BACKOFF_MAX
    }
}

/// Compute the next reconnect sleep given the previous one.
pub fn next_reconnect_delay(prev: u64) -> (r: u64)
    ensures
        r == next_delay(prev),
{
    if prev < RECONNECT_BACKOFF_INITIAL {
        RECONNECT_BACKOFF_INITIAL
    } else if prev > RECONNECT_BACKOFF_MAX {
        RECONNECT_BACKOFF_MAX
    } else if prev * 2 <= RECONNECT_BACKOFF_MAX {
        prev * 2
    } else {
        RECONNECT_BACKOFF_MAX
    }
}

/// Every sleep lies between the first one and the longest one, and the next is
/// no shorter unless it was already longer than the longest.
pub proof fn law_backoff_bounded(prev: u64)
    ensures
        RECONNECT_BACKOFF_INITIAL <= next_delay(prev) <= RECONNECT_BACKOFF_MAX,
        prev <= RECONNECT_BACKOFF_MAX ==> prev <= next_delay(prev),
        next_delay(RECONNECT_BACKOFF_MAX) == RECONNECT_BACKOFF_MAX,
{
}

/// A longer sleep is never followed by a shorter one.
pub proof fn law_backoff_monotone(a: u64, b: u64)
    requires
        a <= b,
    ensures
        next_delay(a) <= next_delay(b),
{
}

/// How many frames the spinner has.
pub const SPINNER_FRAMES: usize = 10;

pub open spec fn spinner(spin: nat) -> char {
    let k = spin % 10;
    if k == 0 {
        '\u{280b}'
    } else if k == 1 {
        '\u{2819}'
    } else if k == 2 {
        '\u{2839}'
    } else if k == 3 {
        '\u{2838}'
    } else if k == 4 {
        '\u{283c}'
    } else if k == 5 {
        '\u{2834}'
    } else if k == 6 {
        '\u{2826}'
    } else if k == 7 {
        '\u{2827}'
    } else if k == 8 {
        '\u{2807}'
    } else {
        '\u{280f}'
    }
}

/// The frame of the spinner for a counter that goes up.
pub fn spinner_glyph(spin: usize) -> (c: char)
    ensures
        c == spinner(spin as nat),
{
    let k: usize = spin % SPINNER_FRAMES;
    if k == 0 {
        '\u{280b}'
    } else if k == 1 {
        '\u{2819}'
    } else if k == 2 {
        '\u{2839}'
    } else if k == 3 {
        '\u{2838}'
    } else if k == 4 {
        '\u{283c}'
    } else if k == 5 {
        '\u{2834}'
    } else if k == 6 {
        '\u{2826}'
    } else if k == 7 {
        '\u{2827}'
    } else if k == 8 {
        '\u{2807}'
    } else {
        '\u{280f}'
    }
}

/// What the reconnect status line reports.
#[derive(Debug, Clone, Copy, PartialEq, Eq, Structural)]
pub enum ReconnectPhase {
    /// Retrying; show the seconds that passed.
    Retrying,
    /// There is no usable route; wait until the network changes.
    WaitingForNetwork,
}

pub open spec fn phase_text(elapsed_s: u64, phase: ReconnectPhase) -> Seq<char> {
    match phase {
        ReconnectPhase::Retrying => "reconnecting "@ + text::decimal(elapsed_s as nat) + "s"@,
        ReconnectPhase::WaitingForNetwork => "waiting for network"@,
    }
}

/// The status line, repainted in place: carriage return, dim, spinner and
/// body, reset, clear to the end of the line.
pub open spec fn status_line(spin: nat, elapsed_s: u64, phase: ReconnectPhase) -> Seq<char> {
    "\r\x1b[2m"@.push(spinner(spin)) + " "@ + phase_text(elapsed_s, phase)
        + " \u{b7} ^C aborts\x1b[0m\x1b[K"@
}

/// Render the in-place reconnect status line. `spin` is any counter that goes
/// up, `elapsed_s` the seconds since the reconnect started.
pub fn reconnect_status_line(spin: usize, elapsed_s: u64, phase: ReconnectPhase) -> (r: String)
    ensures
        r@ == status_line(spin as nat, elapsed_s, phase),
{
    let mut r = copy("\r\x1b[2m");
    r.push(spinner_glyph(spin));
    r.append(" ");
    let body = match phase {
        ReconnectPhase::Retrying => {
            let d = decimal_text(elapsed_s);
            cat3("reconnecting ", d.as_str(), "s")
        },
        ReconnectPhase::WaitingForNetwork => copy("waiting for network"),
    };
    r.append(body.as_str());
    r.append(" \u{b7} ^C aborts\x1b[0m\x1b[K");
    r
}

/// The line that replaces the status line when the client gives up.
pub open spec fn err_line(text: Seq<char>) -> Seq<char> {
    "\r\x1b[31m\u{25b8} "@ + text + "\x1b[0m\x1b[K\r\n"@
}

/// The line that replaces the status line when the client gives up.
pub fn reconnect_err_line(text: &str) -> (r: String)
    ensures
        r@ == err_line(text@),
{
    cat3("\r\x1b[31m\u{25b8} ", text, "\x1b[0m\x1b[K\r\n")
}

pub open spec fn status_banner(text: Seq<char>) -> Seq<char> {
    "\r\n\x1b[2;33m\u{25b8} "@ + text + "\x1b[0m\r\n"@
}

pub open spec fn success_banner(text: Seq<char>) -> Seq<char> {
    "\r\n\x1b[32m\u{25b8} "@ + text + "\x1b[0m\r\n"@
}

pub open spec fn error_banner(text: Seq<char>) -> Seq<char> {
    "\r\n\x1b[31m\u{25b8} "@ + text + "\x1b[0m\r\n"@
}

pub fn status_msg(text: &str) -> (r: String)
    ensures
        r@ == status_banner(text@),
{
    cat3("\r\n\x1b[2;33m\u{25b8} ", text, "\x1b[0m\r\n")
}

pub fn success_msg(text: &str) -> (r: String)
    ensures
        r@ == success_banner(text@),
{
    cat3("\r\n\x1b[32m\u{25b8} ", text, "\x1b[0m\r\n")
}

pub fn error_msg(text: &str) -> (r: String)
    ensures
        r@ == error_banner(text@),
{
    cat3("\r\n\x1b[31m\u{25b8} ", text, "\x1b[0m\r\n")
}

/// A number of bytes in binary units, for people.
pub fn format_size(bytes: u64) -> (r: String)
    ensures
        r@ == outside::human_size(bytes),
{
    binary_size(bytes)
}

/// Whether a handshake error ends the reconnect loop. A rejection always does:
/// the server spoke and refused. A connection that was accepted and then
/// closed does only where no tunnel supervisor is alive to bring it back.
pub open spec fn terminal_handshake_err(msg: Seq<char>, tunnel_supervisor_alive: bool) -> bool {
    ||| "handshake rejected"@.is_prefix_of(msg)
    ||| !tunnel_supervisor_alive && ("daemon closed connection"@.is_prefix_of(msg)
        || "daemon protocol error"@.is_prefix_of(msg))
}

pub fn is_terminal_handshake_err(msg: &str, tunnel_supervisor_alive: bool) -> (r: bool)
    ensures
        r == terminal_handshake_err(msg@, tunnel_supervisor_alive),
{
    if starts_with(msg, "handshake rejected") {
        return true;
    }
    if tunnel_supervisor_alive {
        return false;
    }
    starts_with(msg, "daemon closed connection") || starts_with(msg, "daemon protocol error")
}

/// Time on the wall clock between `since` and `now`: zero if the clock moved
/// backward, so that a clock adjustment never makes a link look idle.
pub open spec fn wall_between(since: u64, now: u64) -> u64 {
    if now >= since {
        (now - since) as u64
    } else {
        0
    }
}

pub fn wall_elapsed(since: u64, now: u64) -> (r: u64)
    ensures
        r == wall_between(since, now),
{
    if now >= since {
        now - since
    } else {
        0
    }
}

/// True when more than `hb_timeout` of wall-clock time has passed since the
/// server last proved it was alive.
pub fn link_is_stale(last_activity: u64, hb_timeout: u64, now: u64) -> (r: bool)
    ensures
        r == (wall_between(last_activity, now) > hb_timeout),
{
    wall_elapsed(last_activity, now) > hb_timeout
}

/// How long the connection has lasted, in hours, minutes and seconds.
pub open spec fn uptime(secs: u64) -> Seq<char> {
    let h = text::decimal((secs / 3600) as nat);
    let s = text::decimal((secs % 60) as nat);
    if secs >= 3600 {
        h + "h "@ + text::decimal(((secs % 3600) / 60) as nat) + "m "@ + s + "s"@
    } else if secs >= 60 {
        text::decimal((secs / 60) as nat) + "m "@ + s + "s"@
    } else {
        text::decimal(secs as nat) + "s"@
    }
}

/// How long the connection has lasted, in hours, minutes and seconds.
pub fn uptime_text(secs: u64) -> (r: String)
    ensures
        r@ == uptime(secs),
{
    let s = decimal_text(secs % 60);
    if secs >= 3600 {
        let mut r = decimal_text(secs / 3600);
        let m = decimal_text((secs % 3600) / 60);
        r.append("h ");
        r.append(m.as_str());
        r.append("m ");
        r.append(s.as_str());
        r.append("s");
        r
    } else if secs >= 60 {
        let m = decimal_text(secs / 60);
        let mut r = m;
        r.append("m ");
        r.append(s.as_str());
        r.append("s");
        r
    } else {
        let mut r = decimal_text(secs);
        r.append("s");
        r
    }
}

/// Attempts come a second apart at first, and each failure doubles that up to
/// ten seconds.
pub proof fn law_backoff_doubles(prev: u64)
    ensures
        prev < 1000 ==> next_delay(prev) == 1000,
        1000 <= prev <= 5000 ==> next_delay(prev) == 2 * prev,
        prev > 5000 ==> next_delay(prev) == 10000,
{
}

/// A rejection always ends a reconnect; a connection that was closed does
/// unless a tunnel may come back; and nothing else does.
pub proof fn law_rejections_are_final(msg: Seq<char>, tunnel_supervisor_alive: bool)
    ensures
        terminal_handshake_err("handshake rejected"@ + msg, tunnel_supervisor_alive),
        terminal_handshake_err("daemon closed connection"@ + msg, false),
        terminal_handshake_err("daemon protocol error"@ + msg, false),
        tunnel_supervisor_alive && terminal_handshake_err(msg, tunnel_supervisor_alive)
            ==> "handshake rejected"@.is_prefix_of(msg),
        terminal_handshake_err(msg, true) ==> terminal_handshake_err(msg, false),
        msg.len() == 0 ==> !terminal_handshake_err(msg, tunnel_supervisor_alive),
{
    reveal_strlit("handshake rejected");
    reveal_strlit("daemon closed connection");
    reveal_strlit("daemon protocol error");
    let a = "handshake rejected"@;
    let b = "daemon closed connection"@;
    let c = "daemon protocol error"@;
    assert((a + msg).subrange(0, a.len() as int) =~= a);
    assert((b + msg).subrange(0, b.len() as int) =~= b);
    assert((c + msg).subrange(0, c.len() as int) =~= c);
}

/// Time never runs backward here: a clock that was set back counts as no time.
pub proof fn law_clock_jumps_are_harmless(since: u64, now: u64)
    ensures
        now >= since ==> wall_between(since, now) + since == now,
        now <= since ==> wall_between(since, now) == 0,
{
}

} // verus!
