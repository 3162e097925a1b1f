//! Getting a lost connection back: when to try, what to show meanwhile, what
//! each attempt's outcome means, and when to give up. Serves both an attached
//! terminal and a read-only tail.

use vstd::prelude::*;
use crate::chrome;
use crate::chrome::{is_terminal_handshake_err, next_reconnect_delay, reconnect_err_line, reconnect_status_line, wall_elapsed, ReconnectPhase, RECONNECT_CHROME_DELAY, SOCKET_GONE_GRACE};
use crate::protocol;
use crate::protocol::{version_mismatch, ErrorCode, PROTOCOL_VERSION};
use crate::text;
use crate::text::{cat2, cat3, copy, decimal_text};

verus! {

/// How long a tail sleeps between attempts, in milliseconds.
pub const TAIL_RETRY_DELAY: u64 = 1000;

/// One episode of reconnecting. Times are milliseconds of the clock that
/// never goes backward.
pub struct Reconnect {
    /// A tail, rather than an attached terminal.
    pub tail: bool,
    /// The session runs behind a tunnel, so that the network matters.
    pub is_remote: bool,
    /// Nothing is painted over a full-screen program.
    pub show_chrome: bool,
    /// The status line is on the screen.
    pub chrome_shown: bool,
    pub started: u64,
    /// Since when the control socket has been missing.
    pub missing_since: Option<u64>,
    /// The last sleep; zero starts over.
    pub backoff: u64,
    pub was_offline: bool,
    pub spin: usize,
}

/// What ended a sleep.
#[derive(Debug, Clone, Copy, PartialEq, Eq, Structural)]
pub enum Wake {
    Elapsed,
    NetworkChanged,
    /// A key that asks for nothing but haste: it forces an attempt, even where
    /// the network seems to be down.
    Key,
    CtrlC,
    StdinClosed,
    /// The interrupt signal, which only a tail receives.
    Interrupt,
    Terminate,
    Hangup,
}

/// What a key pressed during a sleep asks for.
pub open spec fn wake_of(key: u8) -> Wake {
    if key == 0x03 {
        Wake::CtrlC
    } else {
        Wake::Key
    }
}

/// Only Ctrl-C gives up; every other key asks for haste.
pub proof fn law_only_ctrl_c_gives_up(key: u8)
    ensures
        wake_of(key) is CtrlC <==> key == 3,
        wake_of(key) is Key <==> key != 3,
{
}

/// What a key pressed during a sleep asks for: Ctrl-C to give up, any other an
/// attempt right away.
pub fn key_wake(key: u8) -> (r: Wake)
    ensures
        r == wake_of(key),
{
    if key == 0x03 {
        Wake::CtrlC
    } else {
        Wake::Key
    }
}

/// What the world looks like after a sleep.
#[derive(Debug, Clone, Copy)]
pub struct Surroundings {
    /// The operating system says that there is no usable route.
    pub offline: bool,
    /// The tunnel's supervisor holds its lock.
    pub supervisor_alive: bool,
    pub socket_exists: bool,
}

/// What to do after a sleep.
pub enum Woken {
    /// Leave with this exit code, after this text.
    Quit { code: i32, text: String },
    /// Sleep again.
    Again,
    /// Try to connect. `line_dirty` tells the server that the cursor has left
    /// the line where the output stopped.
    Attempt { line_dirty: bool },
}

/// What the keyboard or a signal decides by itself.
pub open spec fn wake_quits(tail: bool, wake: Wake) -> Option<(i32, Seq<char>)> {
    match wake {
        Wake::Interrupt => Some((if tail { 0i32 } else { 1i32 }, Seq::<char>::empty())),
        Wake::Terminate => Some((1i32, if tail { Seq::<char>::empty() } else { "\r\n"@ })),
        Wake::Hangup => Some((1i32, if tail { Seq::<char>::empty() } else { "\r\n"@ })),
        Wake::CtrlC => Some((1i32, "\r\n"@)),
        Wake::StdinClosed => Some((1i32, Seq::<char>::empty())),
        _ => None,
    }
}

/// How an attempt went.
pub enum Attempt {
    Connected,
    SessionGone(String),
    ServerRestarted,
    OwnerChanged,
    VersionMismatch { server_version: u16 },
    HandshakeErr(String),
    DaemonGone,
    /// Nothing certain: it failed, or took too long.
    Retry,
}

/// What to do after an attempt.
pub enum AfterAttempt {
    /// The session is back; print this first.
    Connected { text: String },
    Quit { code: i32, text: String },
    Again,
}

/// What a server answers to a request to attach.
pub enum AttachReply {
    Accepted,
    Refused { code: ErrorCode, message: String },
    /// Nothing, or nothing that makes sense here.
    Unclear,
}

/// Why an attempt's outcome ends the client, if it does.
pub open spec fn fatal(attempt: Attempt, supervisor_alive: bool) -> Option<Seq<char>> {
    match attempt {
        Attempt::SessionGone(m) => Some("session gone: "@ + m@),
        Attempt::ServerRestarted => Some(
            "server restarted -- session is gone; reconnect manually"@,
        ),
        Attempt::OwnerChanged => Some("session taken over by another client"@),
        Attempt::VersionMismatch { server_version } => Some(
            protocol::mismatch_text(server_version),
        ),
        Attempt::HandshakeErr(m) => if chrome::terminal_handshake_err(m@, supervisor_alive) {
            Some(m@)
        } else {
            None
        },
        Attempt::DaemonGone => Some(
            "daemon appears to have crashed -- session is gone; run `gritty server` or `gritty restart`"@,
        ),
        Attempt::Connected => None,
        Attempt::Retry => None,
    }
}

/// The last line of a client that gives up. It leaves the alternate screen,
/// so that it stays visible, and starts a line of its own if no status line
/// was ever painted.
pub open spec fn bail_text(tail: bool, chrome_shown: bool, reason: Seq<char>) -> Seq<char> {
    let lead = if chrome_shown {
        Seq::<char>::empty()
    } else {
        "\r\n"@
    };
    if tail {
        lead + chrome::err_line(reason)
    } else {
        "\x1b[?1049l"@ + lead + chrome::err_line(reason)
    }
}

/// The line that is printed when the control socket has gone for good.
pub open spec fn gone_text(tail: bool) -> Seq<char> {
    let line = chrome::err_line("server socket gone -- session is unreachable; reconnect manually"@);
    if tail {
        line
    } else {
        "\x1b[?1049l"@ + line
    }
}

fn bail(tail: bool, chrome_shown: bool, reason: &str) -> (r: String)
    ensures
        r@ == bail_text(tail, chrome_shown, reason@),
{
    let line = reconnect_err_line(reason);
    if tail {
        if chrome_shown {
            assert(Seq::<char>::empty() + line@ == line@);
            line
        } else {
            cat2("\r\n", line.as_str())
        }
    } else if chrome_shown {
        assert("\x1b[?1049l"@ + Seq::<char>::empty() == "\x1b[?1049l"@);
        cat2("\x1b[?1049l", line.as_str())
    } else {
        cat3("\x1b[?1049l", "\r\n", line.as_str())
    }
}

impl Reconnect {
    /// The connection was lost at `now`, with or without a full-screen program
    /// on the screen.
    pub fn new(tail: bool, is_remote: bool, in_alternate_screen: bool, now: u64) -> (r: Reconnect)
        ensures
            r == (Reconnect {
                tail,
                is_remote,
                show_chrome: !in_alternate_screen,
                chrome_shown: false,
                started: now,
                missing_since: None,
                backoff: 0,
                was_offline: false,
                spin: 0,
            }),
    {
        Reconnect {
            tail,
            is_remote,
            show_chrome: !in_alternate_screen,
            chrome_shown: false,
            started: now,
            missing_since: None,
            backoff: 0,
            was_offline: false,
            spin: 0,
        }
    }

    /// The sleep that comes next.
    pub open spec fn sleep_ms(&self) -> u64 {
        if self.tail {
            TAIL_RETRY_DELAY
        } else {
            chrome::next_delay(self.backoff)
        }
    }

    /// How long to sleep before the next attempt, in milliseconds.
    pub fn delay(&self) -> (r: u64)
        ensures
            r == self.sleep_ms(),
    {
        if self.tail {
            TAIL_RETRY_DELAY
        } else {
            next_reconnect_delay(self.backoff)
        }
    }

    /// Whether the status line may be painted now: the reconnect has lasted
    /// for a while, and an attached terminal's cursor does not move for the
    /// first time while an attempt is under way.
    pub open spec fn may_paint(&self, now: u64, attempting: bool) -> bool {
        &&& self.show_chrome
        &&& chrome::wall_between(self.started, now) >= RECONNECT_CHROME_DELAY
        &&& self.chrome_shown || self.tail || !attempting
    }

    /// Whether a tick leaves the episode as `post` and paints `r`.
    pub open spec fn after_tick(
        self,
        now: u64,
        offline: bool,
        attempting: bool,
        post: Reconnect,
        r: Option<String>,
    ) -> bool {
        let spin = self.spin.wrapping_add(1);
        let phase = if !attempting && self.is_remote && offline {
            ReconnectPhase::WaitingForNetwork
        } else {
            ReconnectPhase::Retrying
        };
        let line = chrome::status_line(
            spin as nat,
            chrome::wall_between(self.started, now) / 1000,
            phase,
        );
        if self.may_paint(now, attempting) {
            &&& post == (Reconnect { spin, chrome_shown: true, ..self })
            &&& r is Some
            &&& r->0@ == if self.chrome_shown {
                line
            } else {
                "\r\n"@ + line
            }
        } else {
            &&& post == (Reconnect { spin, ..self })
            &&& r is None
        }
    }

    /// The spinner ticked: what to paint, if anything.
    pub fn tick(&mut self, now: u64, offline: bool, attempting: bool) -> (r: Option<String>)
        ensures
            old(self).after_tick(now, offline, attempting, *final(self), r),
    {
        self.spin = self.spin.wrapping_add(1);
        let phase = if !attempting && self.is_remote && offline {
            ReconnectPhase::WaitingForNetwork
        } else {
            ReconnectPhase::Retrying
        };
        let lasted: u64 = wall_elapsed(self.started, now);
        if !self.show_chrome || lasted < RECONNECT_CHROME_DELAY {
            return None;
        }
        let first = !self.chrome_shown;
        if first && !(self.tail || !attempting) {
            return None;
        }
        self.chrome_shown = true;
        let line = reconnect_status_line(self.spin, lasted / 1000, phase);
        if first {
            Some(cat2("\r\n", line.as_str()))
        } else {
            Some(line)
        }
    }

    /// Whether the operating system says that there is no way to the server.
    pub open spec fn cut_off(self, around: Surroundings) -> bool {
        self.is_remote && around.offline
    }

    /// The episode after a sleep that did not end it: coming back from being
    /// offline starts the clock and the backoff over.
    pub open spec fn after_sleep(self, wake: Wake, around: Surroundings, now: u64) -> Reconnect {
        let back = self.was_offline && !self.cut_off(around);
        Reconnect {
            was_offline: self.cut_off(around),
            started: if back {
                now
            } else {
                self.started
            },
            backoff: if wake == Wake::NetworkChanged || back {
                0
            } else {
                self.sleep_ms()
            },
            ..self
        }
    }

    /// Since when the socket has been missing, counting now.
    pub open spec fn missing_from(self, now: u64) -> u64 {
        match self.missing_since {
            Some(t) => t,
            None => now,
        }
    }

    /// Whether a sleep that ended so leaves the episode as `post` and calls for
    /// `r`.
    pub open spec fn after_waking(
        self,
        wake: Wake,
        around: Surroundings,
        now: u64,
        post: Reconnect,
        r: Woken,
    ) -> bool {
        let quits = wake_quits(self.tail, wake);
        let slept = self.after_sleep(wake, around, now);
        if quits is Some {
            &&& post == self
            &&& r matches Woken::Quit { code, text } && code == (quits->0).0 && text@
                == (quits->0).1
        } else if self.cut_off(around) && wake != Wake::Key {
            &&& post == (Reconnect { was_offline: true, ..self })
            &&& r == Woken::Again
        } else if !around.socket_exists && !around.supervisor_alive {
            &&& post == (Reconnect { missing_since: Some(self.missing_from(now)), ..slept })
            &&& if chrome::wall_between(self.missing_from(now), now) >= SOCKET_GONE_GRACE {
                r matches Woken::Quit { code, text } && code == 1 && text@ == gone_text(self.tail)
            } else {
                r == Woken::Again
            }
        } else {
            &&& post == (Reconnect { missing_since: None, ..slept })
            &&& r == Woken::Attempt { line_dirty: self.chrome_shown }
        }
    }

    /// A sleep ended: leave, sleep again, or try.
    pub fn woke(&mut self, wake: Wake, around: Surroundings, now: u64) -> (r: Woken)
        ensures
            old(self).after_waking(wake, around, now, *final(self), r),
    {
        match wake {
            Wake::Interrupt => {
                return Woken::Quit {
                    code: if self.tail {
                        0
                    } else {
                        1
                    },
                    text: String::new(),
                };
            },
            Wake::StdinClosed => {
                return Woken::Quit { code: 1, text: String::new() };
            },
            Wake::CtrlC => {
                return Woken::Quit { code: 1, text: copy("\r\n") };
            },
            Wake::Terminate | Wake::Hangup => {
                return Woken::Quit {
                    code: 1,
                    text: if self.tail {
                        String::new()
                    } else {
                        copy("\r\n")
                    },
                };
            },
            _ => {},
        }
        let cut_off = self.is_remote && around.offline;
        if cut_off && !matches!(wake, Wake::Key) {
            self.was_offline = true;
            return Woken::Again;
        }
        let slept: u64 = self.delay();
        let back = self.was_offline && !cut_off;
        let hint = matches!(wake, Wake::NetworkChanged) || back;
        if back {
            self.started = now;
        }
        self.was_offline = cut_off;
        self.backoff = if hint {
            0
        } else {
            slept
        };
        if !around.socket_exists && !around.supervisor_alive {
            let since: u64 = match self.missing_since {
                Some(t) => t,
                None => now,
            };
            self.missing_since = Some(since);
            if wall_elapsed(since, now) >= SOCKET_GONE_GRACE {
                let line = reconnect_err_line(
                    "server socket gone -- session is unreachable; reconnect manually",
                );
                let text = if self.tail {
                    line
                } else {
                    cat2("\x1b[?1049l", line.as_str())
                };
                return Woken::Quit { code: 1, text };
            }
            return Woken::Again;
        }
        self.missing_since = None;
        Woken::Attempt { line_dirty: self.chrome_shown }
    }

    /// What prints when the session is back: the status line is erased, and an
    /// attached terminal's cursor goes back up to where the output stopped.
    pub open spec fn erase_text(&self) -> Seq<char> {
        if !self.chrome_shown {
            Seq::<char>::empty()
        } else if self.tail {
            "\r\x1b[K"@
        } else {
            "\r\x1b[K\x1b[A"@
        }
    }

    /// Whether an attempt that ended so leaves the episode as `post` and calls
    /// for `r`.
    pub open spec fn after_attempt(
        self,
        attempt: Attempt,
        supervisor_alive: bool,
        post: Reconnect,
        r: AfterAttempt,
    ) -> bool {
        match attempt {
            Attempt::Connected => {
                &&& post == self
                &&& r matches AfterAttempt::Connected { text } && text@ == self.erase_text()
            },
            _ => match fatal(attempt, supervisor_alive) {
                Some(reason) => {
                    &&& post == self
                    &&& r matches AfterAttempt::Quit { code, text } && code == 1 && text@
                        == bail_text(self.tail, self.chrome_shown, reason)
                },
                None => {
                    &&& post == (Reconnect {
                        backoff: if supervisor_alive {
                            0
                        } else {
                            self.backoff
                        },
                        ..self
                    })
                    &&& r == AfterAttempt::Again
                },
            },
        }
    }

    /// An attempt ended. While a supervisor is alive it sets the pace, so the
    /// client's own backoff starts over.
    pub fn attempted(&mut self, attempt: Attempt, supervisor_alive: bool) -> (r: AfterAttempt)
        ensures
            old(self).after_attempt(attempt, supervisor_alive, *final(self), r),
    {
        let reason = match attempt {
            Attempt::Connected => {
                let text = if !self.chrome_shown {
                    String::new()
                } else if self.tail {
                    copy("\r\x1b[K")
                } else {
                    copy("\r\x1b[K\x1b[A")
                };
                return AfterAttempt::Connected { text };
            },
            Attempt::SessionGone(m) => cat2("session gone: ", m.as_str()),
            Attempt::ServerRestarted => copy(
                "server restarted -- session is gone; reconnect manually",
            ),
            Attempt::OwnerChanged => copy("session taken over by another client"),
            Attempt::VersionMismatch { server_version } => version_mismatch(server_version),
            Attempt::HandshakeErr(m) => {
                if is_terminal_handshake_err(m.as_str(), supervisor_alive) {
                    m
                } else {
                    if supervisor_alive {
                        self.backoff = 0;
                    }
                    return AfterAttempt::Again;
                }
            },
            Attempt::DaemonGone => copy(
                "daemon appears to have crashed -- session is gone; run `gritty server` or `gritty restart`",
            ),
            Attempt::Retry => {
                if supervisor_alive {
                    self.backoff = 0;
                }
                return AfterAttempt::Again;
            },
        };
        let text = bail(self.tail, self.chrome_shown, reason.as_str());
        AfterAttempt::Quit { code: 1, text }
    }
}

/// What a failure to connect comes to.
pub open spec fn failed_connect(refused: bool, supervisor_alive: bool) -> Attempt {
    if refused && !supervisor_alive {
        Attempt::DaemonGone
    } else {
        Attempt::Retry
    }
}

/// Connecting failed. A refusal with the socket still there and no supervisor
/// is what a crashed local server leaves behind.
pub fn connect_failed(refused: bool, supervisor_alive: bool) -> (r: Attempt)
    ensures
        r == failed_connect(refused, supervisor_alive),
{
    if refused && !supervisor_alive {
        Attempt::DaemonGone
    } else {
        Attempt::Retry
    }
}

/// What is wrong with a server that introduced itself.
pub open spec fn wrong_server(server_id: u64, version: u16, expected_server_id: u64) -> Option<
    Attempt,
> {
    if server_id != expected_server_id {
        Some(Attempt::ServerRestarted)
    } else if version != PROTOCOL_VERSION {
        Some(Attempt::VersionMismatch { server_version: version })
    } else {
        None
    }
}

/// The server introduced itself: `None` if it is the one the session lives in
/// and speaks this client's protocol.
pub fn check_server(server_id: u64, version: u16, expected_server_id: u64) -> (r: Option<Attempt>)
    ensures
        r == wrong_server(server_id, version, expected_server_id),
{
    if server_id != expected_server_id {
        Some(Attempt::ServerRestarted)
    } else if version != PROTOCOL_VERSION {
        Some(Attempt::VersionMismatch { server_version: version })
    } else {
        None
    }
}

/// What a server's answer comes to.
pub open spec fn answered(reply: AttachReply, tail: bool) -> Attempt {
    match reply {
        AttachReply::Accepted => Attempt::Connected,
        AttachReply::Unclear => Attempt::Retry,
        AttachReply::Refused { code, message } => if !tail && code == ErrorCode::AlreadyAttached {
            Attempt::Retry
        } else if !tail && code == ErrorCode::OwnerChanged {
            Attempt::OwnerChanged
        } else {
            Attempt::SessionGone(message)
        },
    }
}

/// The server answered the request to attach again. A session that is still
/// attached elsewhere may free itself; one whose owner changed will not.
pub fn check_reply(reply: AttachReply, tail: bool) -> (r: Attempt)
    ensures
        r == answered(reply, tail),
{
    match reply {
        AttachReply::Accepted => Attempt::Connected,
        AttachReply::Unclear => Attempt::Retry,
        AttachReply::Refused { code, message } => {
            if !tail && code == ErrorCode::AlreadyAttached {
                Attempt::Retry
            } else if !tail && code == ErrorCode::OwnerChanged {
                Attempt::OwnerChanged
            } else {
                Attempt::SessionGone(message)
            }
        },
    }
}

/// A request to attach.
pub struct AttachRequest {
    pub session: String,
    pub client_name: String,
    pub force: bool,
    pub no_replay: bool,
    pub cols: u16,
    pub rows: u16,
    pub attach_token: u64,
    pub rendered_offset: u64,
    pub line_dirty: bool,
}

/// Whether a request takes a session back.
pub open spec fn takes_back(
    r: AttachRequest,
    session_id: u32,
    client_name: Seq<char>,
    cols: u16,
    rows: u16,
    device_id: u64,
    rendered_offset: u64,
    line_dirty: bool,
) -> bool {
    &&& r.session@ == text::decimal(session_id as nat)
    &&& r.client_name@ == client_name
    &&& r.force && !r.no_replay
    &&& r.cols == cols && r.rows == rows
    &&& r.attach_token == device_id
    &&& r.rendered_offset == rendered_offset
    &&& r.line_dirty == line_dirty
}

/// The request that takes a session back: by its number, which no rename
/// changes, from where the output stopped.
pub fn reattach_request(
    session_id: u32,
    client_name: &str,
    cols: u16,
    rows: u16,
    device_id: u64,
    rendered_offset: u64,
    line_dirty: bool,
) -> (r: AttachRequest)
    ensures
        takes_back(
            r,
            session_id,
            client_name@,
            cols,
            rows,
            device_id,
            rendered_offset,
            line_dirty,
        ),
{
    AttachRequest {
        session: decimal_text(session_id as u64),
        client_name: copy(client_name),
        force: true,
        no_replay: false,
        cols,
        rows,
        attach_token: device_id,
        rendered_offset,
        line_dirty,
    }
}

/// How often binding the forward socket is tried again before the client goes
/// on without it.
pub const FORWARD_BIND_ATTEMPTS: u32 = 20;

/// Whether binding is tried again after so many tries.
pub open spec fn binds_again(attempts: u32) -> bool {
    attempts < FORWARD_BIND_ATTEMPTS
}

/// Binding is given up after twenty tries, and not before.
pub proof fn law_binding_is_tried_twenty_times(attempts: u32)
    ensures
        binds_again(attempts) <==> attempts < 20,
{
}

/// Whether to try binding the forward socket again after `attempts` tries: the
/// client that a session was taken from may still hold it for a moment.
pub fn forward_bind_again(attempts: u32) -> (r: bool)
    ensures
        r == binds_again(attempts),
{
    attempts < FORWARD_BIND_ATTEMPTS
}

/// A reconnect that succeeds within the grace period leaves the terminal
/// untouched: nothing is painted before it is over.
pub proof fn law_fast_reconnect_is_invisible(r: Reconnect, now: u64, attempting: bool)
    requires
        chrome::wall_between(r.started, now) < RECONNECT_CHROME_DELAY,
    ensures
        !r.may_paint(now, attempting),
        !r.chrome_shown ==> r.erase_text() == Seq::<char>::empty(),
{
}

/// Any key forces an attempt at once, whatever the network looks like, as long
/// as there is something to connect to; Ctrl-C gives up.
pub proof fn law_key_forces_an_attempt(
    pre: Reconnect,
    wake: Wake,
    around: Surroundings,
    now: u64,
    post: Reconnect,
    r: Woken,
)
    requires
        pre.after_waking(wake, around, now, post, r),
    ensures
        wake == Wake::Key && (around.socket_exists || around.supervisor_alive) ==> r is Attempt,
        wake == Wake::CtrlC ==> r is Quit,
{
}

/// As long as the network is down and no key is struck, nothing is attempted.
pub proof fn law_parked_while_cut_off(
    pre: Reconnect,
    wake: Wake,
    around: Surroundings,
    now: u64,
    post: Reconnect,
    r: Woken,
)
    requires
        pre.after_waking(wake, around, now, post, r),
        pre.cut_off(around),
        wake != Wake::Key,
    ensures
        r !is Attempt,
{
}

/// Nothing is ever painted over a full-screen program.
pub proof fn law_full_screen_is_left_alone(r: Reconnect, now: u64, attempting: bool)
    requires
        !r.show_chrome,
    ensures
        !r.may_paint(now, attempting),
{
}

/// While an attempt of an attached terminal is under way, the cursor does not
/// move for the first time: what the attempt told the server about the line
/// stays true.
pub proof fn law_line_state_holds_during_attempt(r: Reconnect, now: u64)
    requires
        !r.tail,
        !r.chrome_shown,
    ensures
        !r.may_paint(now, true),
{
}

/// Something that happens while the connection is lost, and what it leads to.
pub enum Stage {
    Ticked { now: u64, offline: bool, attempting: bool, painted: Option<String> },
    Woke { wake: Wake, around: Surroundings, now: u64, r: Woken },
    Attempted { attempt: Attempt, supervisor_alive: bool, next: AfterAttempt },
}

/// One stage of an episode, and what the episode was before and after it.
pub struct Passage {
    pub pre: Reconnect,
    pub stage: Stage,
    pub post: Reconnect,
}

pub open spec fn is_passage(p: Passage) -> bool {
    match p.stage {
        Stage::Ticked { now, offline, attempting, painted } => p.pre.after_tick(
            now,
            offline,
            attempting,
            p.post,
            painted,
        ),
        Stage::Woke { wake, around, now, r } => p.pre.after_waking(wake, around, now, p.post, r),
        Stage::Attempted { attempt, supervisor_alive, next } => p.pre.after_attempt(
            attempt,
            supervisor_alive,
            p.post,
            next,
        ),
    }
}

/// An episode of a client from the loss of its connection on.
pub open spec fn is_episode(v: Seq<Passage>) -> bool {
    &&& v.len() > 0 ==> v[0].pre.missing_since is None && !v[0].pre.chrome_shown
    &&& forall|k: int| 0 <= k < v.len() ==> is_passage(#[trigger] v[k])
    &&& forall|k: int| 0 < k < v.len() ==> (#[trigger] v[k]).pre == v[k - 1].post
}

/// Whether the user or a signal ends the client.
pub open spec fn is_called_off(wake: Wake) -> bool {
    wake == Wake::CtrlC || wake == Wake::StdinClosed || wake == Wake::Interrupt || wake
        == Wake::Terminate || wake == Wake::Hangup
}

/// Whether there is no route to the server, so that only a key makes sense of
/// trying.
pub open spec fn is_parked(remote: bool, wake: Wake, around: Surroundings) -> bool {
    remote && around.offline && wake != Wake::Key
}

/// Whether there is something to connect to, or somebody who will bring it
/// back.
pub open spec fn is_reachable(around: Surroundings) -> bool {
    around.socket_exists || around.supervisor_alive
}

/// Since when, by the first `k` stages, neither the socket nor a supervisor was
/// found: the first sleep since they were last found.
pub open spec fn lost_since(v: Seq<Passage>, k: int) -> Option<u64>
    decreases k,
{
    if k <= 0 {
        None
    } else {
        let before = lost_since(v, k - 1);
        match v[k - 1].stage {
            Stage::Woke { wake, around, now, r } => if is_called_off(wake) || is_parked(
                v[0].pre.is_remote,
                wake,
                around,
            ) {
                before
            } else if is_reachable(around) {
                None
            } else if before is Some {
                before
            } else {
                Some(now)
            },
            _ => before,
        }
    }
}

/// Whether, by the first `k` stages, the status line was painted.
pub open spec fn was_painted(v: Seq<Passage>, k: int) -> bool
    decreases k,
{
    k > 0 && (was_painted(v, k - 1) || (v[k - 1].stage matches Stage::Ticked {
        now,
        offline,
        attempting,
        painted,
    } && painted is Some))
}

proof fn lemma_episode(v: Seq<Passage>, k: int)
    requires
        is_episode(v),
        0 <= k < v.len(),
    ensures
        is_passage(v[k]),
        v[k].pre.is_remote == v[0].pre.is_remote,
        v[k].pre.tail == v[0].pre.tail,
        v[k].pre.missing_since == lost_since(v, k),
        v[k].pre.chrome_shown == was_painted(v, k),
    decreases k,
{
    if k > 0 {
        lemma_episode(v, k - 1);
        assert(v[k].pre == v[k - 1].post);
    }
}

/// A lost connection is retried by itself. After a sleep that nobody called off
/// the client tries again whenever the socket is there or a supervisor will
/// bring it back, and the network is not known to be down; a key tries even
/// then. It gives up only where neither socket nor supervisor was found for
/// three seconds, and in between waits for them.
pub proof fn law_keeps_trying_until_the_server_is_gone(v: Seq<Passage>, k: int)
    requires
        is_episode(v),
        0 <= k < v.len(),
    ensures
        v[k].stage matches Stage::Woke { wake, around, now, r } ==> {
            let since = match lost_since(v, k) {
                Some(t) => t,
                None => now,
            };
            if is_called_off(wake) {
                r is Quit
            } else if is_parked(v[0].pre.is_remote, wake, around) {
                r is Again
            } else if is_reachable(around) {
                r is Attempt
            } else if now - since >= 3000 {
                r is Quit
            } else {
                r is Again
            }
        },
{
    lemma_episode(v, k);
}

/// While the supervisor of the tunnel lives, the client never gives up by
/// itself: with the network up every sleep ends in an attempt, and an attempt
/// that does not reach the server leads to the next sleep, which is the
/// shortest there is.
pub proof fn law_respawning_tunnels_are_waited_for(
    pre: Reconnect,
    wake: Wake,
    around: Surroundings,
    now: u64,
    post: Reconnect,
    r: Woken,
    refused: bool,
    after: Reconnect,
    next: AfterAttempt,
)
    requires
        pre.after_waking(wake, around, now, post, r),
        wake == Wake::Elapsed || wake == Wake::NetworkChanged || wake == Wake::Key,
        around.supervisor_alive,
        !around.offline,
        post.after_attempt(failed_connect(refused, true), true, after, next),
    ensures
        r is Attempt,
        next is Again,
        after.missing_since is None,
        after.sleep_ms() == 1000,
{
}

/// The server learns the truth about the terminal: an attempt says that the
/// cursor has moved exactly where the status line was painted, and when the
/// session is back there is something to erase exactly then.
pub proof fn law_attempts_tell_what_was_painted(v: Seq<Passage>, k: int)
    requires
        is_episode(v),
        0 <= k < v.len(),
    ensures
        v[k].stage matches Stage::Woke { wake, around, now, r } ==> (r matches Woken::Attempt {
            line_dirty,
        } ==> line_dirty == was_painted(v, k)),
        v[k].stage matches Stage::Attempted { attempt, supervisor_alive, next } ==> (next matches
            AfterAttempt::Connected { text } ==> attempt is Connected && (text@.len() > 0
            <==> was_painted(v, k))),
{
    lemma_episode(v, k);
    reveal_strlit("\r\x1b[K");
    reveal_strlit("\r\x1b[K\x1b[A");
}

/// The status line is painted exactly where it may be: not over a full-screen
/// program, not in the first second, and not for the first time while an
/// attempt of a terminal is under way. It tells whether the network is missing.
pub proof fn law_status_line_is_painted_when_it_may(
    pre: Reconnect,
    now: u64,
    offline: bool,
    attempting: bool,
    post: Reconnect,
    painted: Option<String>,
)
    requires
        pre.after_tick(now, offline, attempting, post, painted),
    ensures
        painted is Some <==> pre.show_chrome && now - pre.started >= 1000 && (pre.chrome_shown
            || pre.tail || !attempting),
        painted is Some ==> shows_phase(
            painted->0@,
            ((now - pre.started) / 1000) as u64,
            pre.is_remote && offline && !attempting,
        ),
        post.chrome_shown == (pre.chrome_shown || painted is Some),
        post.started == pre.started && post.missing_since == pre.missing_since && post.backoff
            == pre.backoff,
{
    if painted is Some {
        let glyph = chrome::spinner(pre.spin.wrapping_add(1) as nat);
        let line = phase_line(
            glyph,
            ((now - pre.started) / 1000) as u64,
            pre.is_remote && offline && !attempting,
        );
        assert(painted->0@ == line || painted->0@ == "\r\n"@ + line);
    }
}

/// A status line that says that the network is missing, or for how many seconds
/// the client has been trying.
pub open spec fn phase_line(glyph: char, seconds: u64, no_network: bool) -> Seq<char> {
    let body = if no_network {
        "waiting for network"@
    } else {
        "reconnecting "@ + text::decimal(seconds as nat) + "s"@
    };
    "\r\x1b[2m"@.push(glyph) + " "@ + body + " \u{b7} ^C aborts\x1b[0m\x1b[K"@
}

/// Whether a text is such a status line, whatever the spinner shows.
pub open spec fn shows_phase(text: Seq<char>, seconds: u64, no_network: bool) -> bool {
    exists|glyph: char|
        text == #[trigger] phase_line(glyph, seconds, no_network) || text == "\r\n"@ + phase_line(
            glyph,
            seconds,
            no_network,
        )
}

/// An attempt ends the client only where the server itself makes it pointless:
/// it is another server or speaks another protocol, the session is gone or
/// somebody else's, or nobody is left to bring the server back. Every other
/// failure is tried again, and success is success.
pub proof fn law_only_the_server_ends_it(
    pre: Reconnect,
    attempt: Attempt,
    supervisor_alive: bool,
    post: Reconnect,
    r: AfterAttempt,
)
    requires
        pre.after_attempt(attempt, supervisor_alive, post, r),
    ensures
        r is Connected <==> attempt is Connected,
        r is Again <==> attempt is Retry || (attempt matches Attempt::HandshakeErr(m)
            && !"handshake rejected"@.is_prefix_of(m@) && (supervisor_alive || (
        !"daemon closed connection"@.is_prefix_of(m@) && !"daemon protocol error"@.is_prefix_of(
            m@,
        )))),
        r matches AfterAttempt::Quit { code, text } ==> code == 1,
        r is Again && !supervisor_alive ==> post.sleep_ms() == pre.sleep_ms(),
        r is Again && supervisor_alive && !pre.tail ==> post.sleep_ms() == 1000,
{
}

/// A session that is still attached is tried again, one that was accepted is
/// back, and any other refusal is final; a failure to connect is final only
/// where the server is there no more and nobody will start it.
pub proof fn law_answers_decide(
    reply: AttachReply,
    tail: bool,
    server_id: u64,
    version: u16,
    expected: u64,
    refused: bool,
    supervisor_alive: bool,
)
    ensures
        answered(reply, tail) is Connected <==> reply is Accepted,
        answered(reply, tail) is Retry <==> reply is Unclear || (!tail && (reply matches
            AttachReply::Refused { code, message } && code == ErrorCode::AlreadyAttached)),
        answered(reply, tail) is OwnerChanged || answered(reply, tail) is SessionGone
            || answered(reply, tail) is Retry || answered(reply, tail) is Connected,
        wrong_server(server_id, version, expected) is None <==> server_id == expected && version
            == PROTOCOL_VERSION,
        server_id != expected ==> wrong_server(server_id, version, expected) == Some(
            Attempt::ServerRestarted,
        ),
        failed_connect(refused, supervisor_alive) is Retry <==> !refused || supervisor_alive,
        failed_connect(refused, supervisor_alive) is DaemonGone <==> refused && !supervisor_alive,
{
}

/// A session is taken back from where it stopped: by its number, from whoever
/// holds it, with everything that was missed replayed.
pub proof fn law_sessions_are_taken_back_where_they_stopped(
    r: AttachRequest,
    session_id: u32,
    client_name: Seq<char>,
    cols: u16,
    rows: u16,
    device_id: u64,
    rendered_offset: u64,
    line_dirty: bool,
)
    requires
        takes_back(
            r,
            session_id,
            client_name,
            cols,
            rows,
            device_id,
            rendered_offset,
            line_dirty,
        ),
    ensures
        text::unsigned(r.session@) == Some(session_id as nat),
        r.rendered_offset == rendered_offset,
        r.force,
        !r.no_replay,
        r.cols == cols && r.rows == rows,
        r.client_name@ == client_name,
        r.attach_token == device_id,
        r.line_dirty == line_dirty,
{
    text::law_decimal_round_trip(session_id as nat);
}

} // verus!
