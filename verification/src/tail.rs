//! The read-only tail of a session's output.

use vstd::prelude::*;
use crate::alt_screen;
use crate::alt_screen::AltScreenTracker;
use crate::chrome;
use crate::chrome::{link_is_stale, reconnect_err_line, wall_elapsed, DEFAULT_HEARTBEAT_INTERVAL, DEFAULT_HEARTBEAT_TIMEOUT};
use crate::protocol::Frame;
use crate::relay::Now;
use crate::text;
use crate::text::{copy, decimal_text};

verus! {

/// The state of a tail.
pub struct Tail {
    pub screen: AltScreenTracker,
    /// When the server was last heard, on the wall clock.
    pub last_activity: u64,
    /// When something was last sent.
    pub last_outbound: u64,
}

/// A tail, seen as a value.
pub struct TailModel {
    pub screen: alt_screen::Screen,
    pub last_activity: u64,
    pub last_outbound: u64,
}

impl View for Tail {
    type V = TailModel;

    open spec fn view(&self) -> TailModel {
        TailModel {
            screen: self.screen@,
            last_activity: self.last_activity,
            last_outbound: self.last_outbound,
        }
    }
}

/// What a tail does next.
pub enum TailStep {
    Nothing,
    /// Bytes for the terminal.
    Write(Vec<u8>),
    /// Probe the link.
    Ping,
    /// Leave with an exit code, after a line on standard error.
    Quit { code: i32, text: String },
    /// The link is down.
    Reconnect,
}

/// A signal that ends a tail.
#[derive(Debug, Clone, Copy, PartialEq, Eq, Structural)]
pub enum Signal {
    /// Ctrl-C.
    Interrupt,
    Terminate,
    Hangup,
}

/// The message that a step sends to the server, if it sends any.
pub open spec fn sent_by(step: TailStep) -> Option<Frame> {
    match step {
        TailStep::Ping => Some(Frame::Ping),
        _ => None,
    }
}

/// The last thing on the terminal after a step, if the step ends the tail.
pub open spec fn last_text(step: TailStep) -> Option<Seq<char>> {
    match step {
        TailStep::Quit { code, text } => Some(TERMINAL_RESET@),
        _ => None,
    }
}

impl TailStep {
    /// The message that this sends to the server. A tail only looks on:
    /// besides the probe it has nothing to say.
    pub fn frame(&self) -> (r: Option<Frame>)
        ensures
            r == sent_by(*self),
    {
        match self {
            TailStep::Ping => Some(Frame::Ping),
            _ => None,
        }
    }

    /// What standard output ends with where this ends the tail.
    pub fn final_text(&self) -> (r: Option<String>)
        ensures
            text::owned_view(r) == last_text(*self),
    {
        match self {
            TailStep::Quit { code, text } => Some(copy(TERMINAL_RESET)),
            _ => None,
        }
    }
}

/// The session whose output is asked for, by its number: a name, or the one
/// last attached to, could come to mean another session by the time of a
/// reconnect.
pub fn tail_request(session_id: u32) -> (r: String)
    ensures
        r@ == text::decimal(session_id as nat),
{
    decimal_text(session_id as u64)
}

/// A tail that begins at a time.
pub open spec fn begun(now: Now) -> TailModel {
    TailModel {
        screen: alt_screen::fresh_screen(),
        last_activity: now.wall,
        last_outbound: now.mono,
    }
}

/// What the connection delivered, and what follows.
pub open spec fn frame_effect(
    pre: TailModel,
    frame: Option<Frame>,
    now: Now,
    post: TailModel,
    step: TailStep,
) -> bool {
    &&& post.last_outbound == pre.last_outbound
    &&& post.last_activity == (if frame is Some {
        now.wall
    } else {
        pre.last_activity
    })
    &&& post.screen == (match frame {
        Some(Frame::Data(d)) => alt_screen::scan_bytes(pre.screen, d@),
        _ => pre.screen,
    })
    &&& match frame {
        None => step == TailStep::Reconnect,
        Some(Frame::Data(d)) => step == TailStep::Write(d),
        Some(Frame::Exit { code }) => step matches TailStep::Quit { code: c, text } && c == code
            && text@ == Seq::<char>::empty(),
        Some(Frame::ServerShutdown) => step matches TailStep::Quit { code: c, text } && c == 1
            && text@ == chrome::err_line("server shut down -- session is gone"@),
        Some(_) => step == TailStep::Nothing,
    }
}

/// What a tick of the heartbeat leads to.
pub open spec fn beat(m: TailModel, now: Now) -> TailStep {
    if chrome::wall_between(m.last_activity, now.wall) > DEFAULT_HEARTBEAT_TIMEOUT * 1000 {
        TailStep::Reconnect
    } else if chrome::wall_between(m.last_outbound, now.mono) >= DEFAULT_HEARTBEAT_INTERVAL
        * 1000 {
        TailStep::Ping
    } else {
        TailStep::Nothing
    }
}

/// Whether this is how a tail ends on a signal.
pub open spec fn ends_on(s: Signal, step: TailStep) -> bool {
    step matches TailStep::Quit { code, text } && code == (if s is Interrupt {
        0i32
    } else {
        1i32
    }) && text@.len() == 0
}

/// A probe got through.
pub open spec fn after_probe(m: TailModel, now: Now) -> TailModel {
    TailModel { last_outbound: now.mono, ..m }
}

/// The connection is back.
pub open spec fn taken_up(m: TailModel, now: Now) -> TailModel {
    TailModel { last_activity: now.wall, ..m }
}

impl Tail {
    pub fn new(now: Now) -> (t: Tail)
        ensures
            t@ == begun(now),
    {
        Tail { screen: AltScreenTracker::new(), last_activity: now.wall, last_outbound: now.mono }
    }

    /// React to what the connection delivered: a message, or `None` once it
    /// failed or was closed. Only output is printed.
    pub fn handle_frame(&mut self, frame: Option<Frame>, now: Now) -> (step: TailStep)
        ensures
            frame_effect(old(self)@, frame, now, final(self)@, step),
    {
        match frame {
            None => TailStep::Reconnect,
            Some(f) => {
                self.last_activity = now.wall;
                match f {
                    Frame::Data(d) => {
                        self.screen.scan(d.as_slice());
                        TailStep::Write(d)
                    },
                    Frame::Exit { code } => TailStep::Quit { code, text: String::new() },
                    Frame::ServerShutdown => TailStep::Quit {
                        code: 1,
                        text: reconnect_err_line("server shut down -- session is gone"),
                    },
                    _ => TailStep::Nothing,
                }
            },
        }
    }

    /// The heartbeat ticked.
    pub fn heartbeat(&self, now: Now) -> (step: TailStep)
        ensures
            step == beat(self@, now),
    {
        if link_is_stale(self.last_activity, DEFAULT_HEARTBEAT_TIMEOUT * 1000, now.wall) {
            TailStep::Reconnect
        } else if wall_elapsed(self.last_outbound, now.mono) >= DEFAULT_HEARTBEAT_INTERVAL * 1000 {
            TailStep::Ping
        } else {
            TailStep::Nothing
        }
    }

    /// The network changed: probe the link at once.
    pub fn network_changed(&self) -> (step: TailStep)
        ensures
            step == TailStep::Ping,
    {
        TailStep::Ping
    }

    /// A signal arrived. Ctrl-C is how a tail is meant to end; the others cut
    /// it short.
    pub fn interrupted(&self, s: Signal) -> (step: TailStep)
        ensures
            ends_on(s, step),
    {
        TailStep::Quit {
            code: if matches!(s, Signal::Interrupt) {
                0
            } else {
                1
            },
            text: String::new(),
        }
    }

    /// There is no way back to the session.
    pub fn gave_up(&self, code: i32, text: String) -> (step: TailStep)
        ensures
            step == (TailStep::Quit { code, text }),
    {
        TailStep::Quit { code, text }
    }

    /// A probe got through.
    pub fn sent(&mut self, now: Now)
        ensures
            final(self)@ == after_probe(old(self)@, now),
    {
        self.last_outbound = now.mono;
    }

    /// The connection is back.
    pub fn reconnected(&mut self, now: Now)
        ensures
            final(self)@ == taken_up(old(self)@, now),
    {
        self.last_activity = now.wall;
    }
}

/// What a tail leaves the terminal with: main screen, no colors, a cursor.
pub const TERMINAL_RESET: &'static str = "\x1b[?1049l\x1b[0m\x1b[?25h";

/// A tail never sends what was typed, or anything else but a probe.
pub proof fn law_tail_only_looks_on(step: TailStep)
    ensures
        sent_by(step) matches Some(f) ==> f == Frame::Ping,
{
}

/// However a tail ends, the terminal is left in order: the last thing on it is
/// the reset.
pub proof fn law_tail_resets_the_terminal(step: TailStep)
    ensures
        step is Quit <==> last_text(step) == Some(TERMINAL_RESET@),
{
}

/// Something that happens to a tail.
pub enum Happening {
    Frame { frame: Option<Frame>, now: Now },
    Beat { now: Now },
    Interrupted { s: Signal },
    Sent { now: Now },
    Reconnected { now: Now },
}

/// One thing that happened, with the state around it and what was done.
pub struct Moment {
    pub pre: TailModel,
    pub what: Happening,
    pub post: TailModel,
    pub step: TailStep,
}

/// Whether a tail does this.
pub open spec fn is_moment(m: Moment) -> bool {
    match m.what {
        Happening::Frame { frame, now } => frame_effect(m.pre, frame, now, m.post, m.step),
        Happening::Beat { now } => m.post == m.pre && m.step == beat(m.pre, now),
        Happening::Interrupted { s } => m.post == m.pre && ends_on(s, m.step),
        Happening::Sent { now } => m.post == after_probe(m.pre, now) && m.step is Nothing,
        Happening::Reconnected { now } => m.post == taken_up(m.pre, now) && m.step is Nothing,
    }
}

/// Whether these follow one another in a tail that began at `start`.
pub open spec fn is_watch(start: Now, run: Seq<Moment>) -> bool
    decreases run.len(),
{
    run.len() == 0 || {
        &&& is_watch(start, run.drop_last())
        &&& is_moment(run.last())
        &&& run.last().pre == state_after(start, run.drop_last())
    }
}

/// The state that a run leaves.
pub open spec fn state_after(start: Now, run: Seq<Moment>) -> TailModel {
    if run.len() == 0 {
        begun(start)
    } else {
        run.last().post
    }
}

/// The output that the server sent.
pub open spec fn output_sent(run: Seq<Moment>) -> Seq<u8>
    decreases run.len(),
{
    if run.len() == 0 {
        seq![]
    } else {
        match run.last().what {
            Happening::Frame { frame: Some(Frame::Data(d)), .. } => output_sent(run.drop_last())
                + d@,
            _ => output_sent(run.drop_last()),
        }
    }
}

/// The bytes that reached the terminal.
pub open spec fn output_seen(run: Seq<Moment>) -> Seq<u8>
    decreases run.len(),
{
    if run.len() == 0 {
        seq![]
    } else {
        match run.last().step {
            TailStep::Write(d) => output_seen(run.drop_last()) + d@,
            _ => output_seen(run.drop_last()),
        }
    }
}

/// When the server was last there: it sent something, or took the tail back.
pub open spec fn heard_at(start: Now, run: Seq<Moment>) -> u64
    decreases run.len(),
{
    if run.len() == 0 {
        start.wall
    } else {
        match run.last().what {
            Happening::Frame { frame: Some(_), now } => now.wall,
            Happening::Reconnected { now } => now.wall,
            _ => heard_at(start, run.drop_last()),
        }
    }
}

/// When a probe last got through.
pub open spec fn probed_at(start: Now, run: Seq<Moment>) -> u64
    decreases run.len(),
{
    if run.len() == 0 {
        start.mono
    } else {
        match run.last().what {
            Happening::Sent { now } => now.mono,
            _ => probed_at(start, run.drop_last()),
        }
    }
}

/// Over the whole of a tail, the terminal gets the output that the server
/// sent: every byte of it, in order, and nothing else.
pub proof fn law_tail_shows_the_output(start: Now, run: Seq<Moment>)
    requires
        is_watch(start, run),
    ensures
        output_seen(run) == output_sent(run),
    decreases run.len(),
{
    if run.len() > 0 {
        law_tail_shows_the_output(start, run.drop_last());
    }
}

proof fn lemma_clocks(start: Now, run: Seq<Moment>)
    requires
        is_watch(start, run),
    ensures
        state_after(start, run).last_activity == heard_at(start, run),
        state_after(start, run).last_outbound == probed_at(start, run),
    decreases run.len(),
{
    if run.len() > 0 {
        lemma_clocks(start, run.drop_last());
    }
}

/// A server that is silent for over a minute is taken for gone; one that is
/// not is probed once ten seconds went by without a probe, and otherwise left
/// alone.
pub proof fn law_tail_notices_a_dead_link(start: Now, run: Seq<Moment>)
    requires
        is_watch(start, run),
        run.len() > 0,
        run.last().what is Beat,
    ensures
        ({
            let now = run.last().what->Beat_now;
            let silent = now.wall - heard_at(start, run);
            let step = run.last().step;
            &&& silent > 60000 <==> step is Reconnect
            &&& step is Ping <==> silent <= 60000 && now.mono - probed_at(start, run) >= 10000
            &&& step is Reconnect || step is Ping || step is Nothing
        }),
{
    lemma_clocks(start, run.drop_last());
}

/// A tail ends when its session does, with the session's own exit code, when
/// the server shuts down, or when the user says so; a lost connection never
/// ends it.
pub proof fn law_tail_ends_with_the_session(start: Now, run: Seq<Moment>)
    requires
        is_watch(start, run),
        run.len() > 0,
    ensures
        match run.last().what {
            Happening::Frame { frame: Some(Frame::Exit { code }), .. } => run.last().step
                matches TailStep::Quit { code: c, text } && c == code && text@.len() == 0,
            Happening::Frame { frame: Some(Frame::ServerShutdown), .. } => run.last().step
                matches TailStep::Quit { code: c, text } && c != 0 && text@.len() > 0,
            Happening::Frame { frame: None, .. } => run.last().step is Reconnect,
            Happening::Interrupted { s } => run.last().step
                matches TailStep::Quit { code: c, text } && (c == 0 <==> s is Interrupt)
                && text@.len() == 0,
            _ => !(run.last().step is Quit),
        },
{
    assert(run.last().what matches Happening::Frame { frame: Some(Frame::ServerShutdown), .. }
        ==> chrome::err_line("server shut down -- session is gone"@).len() > 0) by {
        reveal_strlit("server shut down -- session is gone");
    }
}

} // verus!
