//! What a relay does over the whole of a connection: bytes pass between the
//! server and this machine, and nothing else reaches either.

use vstd::prelude::*;
use crate::alt_screen;
use crate::chrome;
use crate::escape;
use crate::escape::{Escaped, Key};
use crate::protocol::Frame;
use crate::rate;
use crate::relay;
use crate::relay::{AgentEvent, ForwardEvent, ForwardRequest, ForwardStep, Now, RelayAction, RelayExit, RelayModel, TunnelEvent, Typing};
use crate::text;

verus! {

/// Something that happens to a relay.
pub enum Event {
    /// The server sent a message.
    Server { frame: Frame, now: Now },
    Agent(AgentEvent),
    Tunnel(TunnelEvent),
    Forward(ForwardEvent),
    Typed(Typing),
    Heartbeat { hb_interval: u64, hb_timeout: u64, now: Now },
    Resumed { cols: u16, rows: u16, now: Now },
    NetworkChanged { now: Now },
    /// A message got through.
    Sent { now: Now },
    /// A number was given to a tunnel connection.
    TunnelNumbered,
    /// A number was given to a forwarded connection.
    ChannelNumbered,
    /// A command asked for the forward `id`.
    Asked { id: u32, r: ForwardRequest },
    /// Listening for the forward `id` worked, or failed for a reason.
    Bound { id: u32, r: ForwardRequest, failure: Option<String> },
    /// The request for the forward `id` got through, or did not.
    Requested { id: u32, r: ForwardRequest, got_through: bool },
}

/// One event, what the relay was before and after it, and what it asked for.
pub struct Turn {
    pub pre: RelayModel,
    pub event: Event,
    pub post: RelayModel,
    pub acts: Seq<RelayAction>,
    pub exit: Option<RelayExit>,
    /// What the command behind a forward is in for.
    pub out: Option<ForwardStep>,
}

/// Whether a relay reacts to the event so.
#[verifier::opaque]
pub open spec fn is_turn(t: Turn) -> bool {
    match t.event {
        Event::Server { frame, now } => {
            &&& frame matches Frame::Data(d) ==> t.pre.bytes_relayed + d@.len() <= u64::MAX
                && t.pre.rendered_offset + d@.len() <= u64::MAX
            &&& relay::server_effect(t.pre, Some(frame), now, t.post, t.acts, t.exit)
        },
        Event::Agent(e) => relay::agent_effect(t.pre, e, t.post, t.acts) && t.exit is None,
        Event::Tunnel(e) => relay::tunnel_effect(t.pre, e, t.post, t.acts) && t.exit is None,
        Event::Forward(e) => relay::forward_effect(t.pre, e, t.post, t.acts) && t.exit is None,
        Event::Typed(y) => t.post == t.pre && exists|end: escape::EscapeState| #[trigger]
            relay::input_effect(t.pre, y, end, t.acts, t.exit),
        Event::Heartbeat { hb_interval, hb_timeout, now } => relay::heartbeat_effect(
            t.pre,
            hb_interval,
            hb_timeout,
            now,
            t.post,
            t.acts,
            t.exit,
        ),
        Event::Resumed { cols, rows, now } => relay::resumed_effect(
            t.pre,
            cols,
            rows,
            now,
            t.post,
            t.acts,
            t.exit,
        ),
        Event::NetworkChanged { now } => relay::network_effect(t.pre, now, t.post, t.acts, t.exit),
        Event::Sent { now } => {
            &&& t.post == relay::after_sending(t.pre, now)
            &&& t.acts.len() == 0
            &&& t.exit is None
        },
        Event::TunnelNumbered => {
            &&& t.post == relay::numbered_tunnel(t.pre).1
            &&& t.acts.len() == 0
            &&& t.exit is None
        },
        Event::ChannelNumbered => {
            &&& t.post == relay::numbered_channel(t.pre).1
            &&& t.acts.len() == 0
            &&& t.exit is None
        },
        Event::Asked { id, r } => {
            &&& t.out is Some
            &&& relay::request_effect(t.pre, r, t.post, id, t.out->0)
            &&& t.acts.len() == 0
            &&& t.exit is None
        },
        Event::Bound { id, r, failure } => {
            &&& t.out is Some
            &&& relay::bound_effect(t.pre, id, r, failure, t.post, t.out->0)
            &&& t.acts.len() == 0
            &&& t.exit is None
        },
        Event::Requested { id, r, got_through } => {
            &&& t.out is Some
            &&& relay::requested_effect(t.pre, id, r, got_through, t.post, t.out->0)
            &&& t.acts.len() == 0
            &&& t.exit is None
        },
    }
}

/// Whether a relay has nothing open, as at the beginning of a connection.
pub open spec fn nothing_open(m: RelayModel) -> bool {
    &&& m.agent == Map::<u32, ()>::empty()
    &&& m.tunnel == Map::<u32, ()>::empty()
    &&& m.channels == Map::<u32, u32>::empty()
    &&& m.forwards == Map::<u32, u16>::empty()
    &&& m.pending == Map::<u32, ()>::empty()
    &&& m.initiated == Map::<u32, u16>::empty()
}

/// The turns of a relay from the beginning of a connection.
pub open spec fn is_run(run: Seq<Turn>) -> bool {
    &&& run.len() > 0 ==> nothing_open(run[0].pre)
    &&& forall|k: int| 0 <= k < run.len() ==> #[trigger] is_turn(run[k])
    &&& forall|k: int| 0 < k < run.len() ==> (#[trigger] run[k]).pre == run[k - 1].post
}

/// What bytes pass to and from on this machine.
pub enum Side {
    /// The local agent.
    Agent,
    /// Whoever follows a sign-in redirect.
    Tunnel,
    /// A forwarded port.
    Forward,
}

/// The bytes that an action hands to the local end of a channel.
#[verifier::opaque]
pub open spec fn handed(a: RelayAction, side: Side, ch: u32) -> Seq<u8> {
    match a {
        RelayAction::DeliverAgent { channel_id, data } => if side is Agent && channel_id == ch {
            data@
        } else {
            seq![]
        },
        RelayAction::DeliverTunnel { channel_id, data } => if side is Tunnel && channel_id == ch {
            data@
        } else {
            seq![]
        },
        RelayAction::DeliverForward { channel_id, data } => if side is Forward && channel_id
            == ch {
            data@
        } else {
            seq![]
        },
        _ => seq![],
    }
}

/// The bytes that a message carries for a channel.
#[verifier::opaque]
pub open spec fn carried(f: Frame, side: Side, ch: u32) -> Seq<u8> {
    match f {
        Frame::AgentData { channel_id, data } => if side is Agent && channel_id == ch {
            data@
        } else {
            seq![]
        },
        Frame::TunnelData { channel_id, data } => if side is Tunnel && channel_id == ch {
            data@
        } else {
            seq![]
        },
        Frame::PortForwardData { channel_id, data } => if side is Forward && channel_id == ch {
            data@
        } else {
            seq![]
        },
        _ => seq![],
    }
}

/// The bytes that an action sends to the server on a channel.
#[verifier::opaque]
pub open spec fn sent(a: RelayAction, side: Side, ch: u32) -> Seq<u8> {
    match a {
        RelayAction::Send(f) => carried(f, side, ch),
        RelayAction::Notify(f) => carried(f, side, ch),
        _ => seq![],
    }
}

/// The bytes that the server brings for a channel.
#[verifier::opaque]
pub open spec fn brought(e: Event, side: Side, ch: u32) -> Seq<u8> {
    match e {
        Event::Server { frame, now } => carried(frame, side, ch),
        _ => seq![],
    }
}

/// The bytes that the local end of a channel gives.
#[verifier::opaque]
pub open spec fn given(e: Event, side: Side, ch: u32) -> Seq<u8> {
    match e {
        Event::Agent(AgentEvent::Data { channel_id, data }) => if side is Agent && channel_id
            == ch {
            data@
        } else {
            seq![]
        },
        Event::Tunnel(TunnelEvent::Data { channel_id, data }) => if side is Tunnel && channel_id
            == ch {
            data@
        } else {
            seq![]
        },
        Event::Forward(ForwardEvent::Data { channel_id, data }) => if side is Forward && channel_id
            == ch {
            data@
        } else {
            seq![]
        },
        _ => seq![],
    }
}

/// All that actions hand over, in order.
pub open spec fn all_handed(acts: Seq<RelayAction>, side: Side, ch: u32) -> Seq<u8>
    decreases acts.len(),
{
    if acts.len() == 0 {
        seq![]
    } else {
        all_handed(acts.drop_last(), side, ch) + handed(acts.last(), side, ch)
    }
}

/// All that actions send, in order.
pub open spec fn all_sent(acts: Seq<RelayAction>, side: Side, ch: u32) -> Seq<u8>
    decreases acts.len(),
{
    if acts.len() == 0 {
        seq![]
    } else {
        all_sent(acts.drop_last(), side, ch) + sent(acts.last(), side, ch)
    }
}

/// Whether the server ended the session for this client.
pub open spec fn is_farewell(e: Event) -> bool {
    e matches Event::Server { frame, now } && (frame is Detached || frame is ServerShutdown)
}

/// The port that the forward `f` leads to from the server's side: what this
/// client asked for, until the forward is stopped.
#[verifier::opaque]
pub open spec fn asked_after(before: Option<u16>, e: Event, f: u32) -> Option<u16> {
    match e {
        Event::Asked { id, r } => if id == f && r.direction == 0 {
            Some(r.target_port)
        } else {
            before
        },
        Event::Bound { id, r, failure } => if id == f && r.direction == 0 && failure is None {
            Some(r.target_port)
        } else {
            before
        },
        Event::Forward(ForwardEvent::Stopped { forward_id }) => if forward_id == f {
            None
        } else {
            before
        },
        Event::Server { frame: Frame::PortForwardStop { forward_id }, now } => if forward_id == f {
            None
        } else {
            before
        },
        _ => before,
    }
}

/// The port that the forward `f` was asked to lead to, by the first `k` turns.
pub open spec fn asked_port(run: Seq<Turn>, k: int, f: u32) -> Option<u16>
    decreases k,
{
    if k <= 0 {
        None
    } else {
        asked_after(asked_port(run, k - 1, f), run[k - 1].event, f)
    }
}

/// Whether the command behind the forward `f` waits for the server to confirm.
#[verifier::opaque]
pub open spec fn waiting_after(before: bool, e: Event, f: u32) -> bool {
    match e {
        Event::Requested { id, r, got_through } => before || (id == f && r.direction == 0
            && got_through),
        Event::Server { frame: Frame::PortForwardReady { forward_id }, now } => before && forward_id
            != f,
        Event::Server { frame: Frame::PortForwardStop { forward_id }, now } => before && forward_id
            != f,
        _ => before && !is_farewell(e),
    }
}

/// Whether the command behind the forward `f` waits, by the first `k` turns.
pub open spec fn is_waiting(run: Seq<Turn>, k: int, f: u32) -> bool
    decreases k,
{
    k > 0 && waiting_after(is_waiting(run, k - 1, f), run[k - 1].event, f)
}

/// The port that connections of the forward `f` lead to while it stands: from
/// when this machine listens for it or the server confirms it, until either
/// side stops it.
#[verifier::opaque]
pub open spec fn standing_after(
    before: Option<u16>,
    waited: bool,
    asked: Option<u16>,
    e: Event,
    f: u32,
) -> Option<u16> {
    match e {
        Event::Bound { id, r, failure } => if id == f && failure is None {
            Some(r.target_port)
        } else {
            before
        },
        Event::Requested { id, r, got_through } => if id == f && got_through && r.direction != 0
            && before is None {
            Some(r.target_port)
        } else {
            before
        },
        Event::Server { frame: Frame::PortForwardReady { forward_id }, now } => if forward_id == f
            && waited && before is None {
            Some(
                match asked {
                    Some(p) => p,
                    None => 0,
                },
            )
        } else {
            before
        },
        Event::Server { frame: Frame::PortForwardStop { forward_id }, now } => if forward_id == f {
            None
        } else {
            before
        },
        Event::Forward(ForwardEvent::Stopped { forward_id }) => if forward_id == f {
            None
        } else {
            before
        },
        _ => if is_farewell(e) {
            None
        } else {
            before
        },
    }
}

/// The port that connections of the forward `f` lead to, by the first `k`
/// turns, if the forward stands.
pub open spec fn standing(run: Seq<Turn>, k: int, f: u32) -> Option<u16>
    decreases k,
{
    if k <= 0 {
        None
    } else {
        standing_after(
            standing(run, k - 1, f),
            is_waiting(run, k - 1, f),
            asked_port(run, k - 1, f),
            run[k - 1].event,
            f,
        )
    }
}

/// Whether a channel of the agent is open: it was connected, and not closed
/// from either end since.
#[verifier::opaque]
pub open spec fn agent_after(before: bool, e: Event, ch: u32) -> bool {
    match e {
        Event::Agent(AgentEvent::Connected { channel_id }) => before || channel_id == ch,
        Event::Agent(AgentEvent::Closed { channel_id }) => before && channel_id != ch,
        Event::Agent(AgentEvent::Backpressured { channel_id }) => before && channel_id != ch,
        Event::Server { frame: Frame::AgentClose { channel_id }, now } => before && channel_id
            != ch,
        _ => before && !is_farewell(e),
    }
}

/// Whether a connection that followed a redirect is open: it was accepted, and
/// not closed from either end since.
#[verifier::opaque]
pub open spec fn tunnel_after(before: bool, e: Event, ch: u32) -> bool {
    match e {
        Event::Tunnel(TunnelEvent::Accepted { channel_id }) => before || channel_id == ch,
        Event::Tunnel(TunnelEvent::Closed { channel_id }) => before && channel_id != ch,
        Event::Tunnel(TunnelEvent::Backpressured { channel_id }) => before && channel_id != ch,
        Event::Server { frame: Frame::TunnelClose { channel_id }, now } => before && channel_id
            != ch,
        _ => before && !is_farewell(e),
    }
}

/// The forward that the channel `ch` belongs to while it is open: it was
/// connected, or accepted for a forward that stands, and since then neither end
/// was closed and the forward was not stopped. `stood` tells whether the
/// forward of a connection that comes in stands.
#[verifier::opaque]
pub open spec fn forward_after(before: Option<u32>, stood: bool, e: Event, ch: u32) -> Option<u32> {
    match e {
        Event::Forward(ForwardEvent::Connected { forward_id, channel_id }) => if channel_id == ch {
            Some(forward_id)
        } else {
            before
        },
        Event::Forward(ForwardEvent::Accepted { forward_id, channel_id }) => if channel_id == ch
            && stood {
            Some(forward_id)
        } else {
            before
        },
        Event::Forward(ForwardEvent::Closed { channel_id }) => if channel_id == ch {
            None
        } else {
            before
        },
        Event::Forward(ForwardEvent::Backpressured { channel_id }) => if channel_id == ch {
            None
        } else {
            before
        },
        Event::Server { frame: Frame::PortForwardClose { channel_id }, now } => if channel_id == ch {
            None
        } else {
            before
        },
        Event::Server { frame: Frame::PortForwardStop { forward_id }, now } => if before == Some(
            forward_id,
        ) {
            None
        } else {
            before
        },
        Event::Forward(ForwardEvent::Stopped { forward_id }) => if before == Some(forward_id) {
            None
        } else {
            before
        },
        _ => if is_farewell(e) {
            None
        } else {
            before
        },
    }
}

/// The forward of a connection that comes in.
pub open spec fn accepts_for(e: Event) -> u32 {
    match e {
        Event::Forward(ForwardEvent::Accepted { forward_id, channel_id }) => forward_id,
        _ => 0,
    }
}

pub open spec fn agent_open(run: Seq<Turn>, k: int, ch: u32) -> bool
    decreases k,
{
    k > 0 && agent_after(agent_open(run, k - 1, ch), run[k - 1].event, ch)
}

pub open spec fn tunnel_open(run: Seq<Turn>, k: int, ch: u32) -> bool
    decreases k,
{
    k > 0 && tunnel_after(tunnel_open(run, k - 1, ch), run[k - 1].event, ch)
}

pub open spec fn forward_open(run: Seq<Turn>, k: int, ch: u32) -> Option<u32>
    decreases k,
{
    if k <= 0 {
        None
    } else {
        let e = run[k - 1].event;
        forward_after(
            forward_open(run, k - 1, ch),
            standing(run, k - 1, accepts_for(e)) is Some,
            e,
            ch,
        )
    }
}

/// Whether a channel is open, by the first `k` turns.
pub open spec fn is_open(run: Seq<Turn>, k: int, side: Side, ch: u32) -> bool {
    match side {
        Side::Agent => agent_open(run, k, ch),
        Side::Tunnel => tunnel_open(run, k, ch),
        Side::Forward => forward_open(run, k, ch) is Some,
    }
}

/// The relay after the first `k` turns.
pub open spec fn state_at(run: Seq<Turn>, k: int) -> RelayModel {
    if k < run.len() {
        run[k].pre
    } else {
        run[k - 1].post
    }
}

proof fn lemma_chain(run: Seq<Turn>, k: int)
    requires
        is_run(run),
        0 < k <= run.len(),
    ensures
        is_turn(run[k - 1]),
        state_at(run, k - 1) == run[k - 1].pre,
        state_at(run, k) == run[k - 1].post,
{
}

/// What a table holds under a key.
pub open spec fn entry<V>(m: Map<u32, V>, key: u32) -> Option<V> {
    if m.contains_key(key) {
        Some(m[key])
    } else {
        None
    }
}

proof fn lemma_turn_forwards(t: Turn, f: u32)
    requires
        is_turn(t),
    ensures
        entry(t.post.initiated, f) == asked_after(entry(t.pre.initiated, f), t.event, f),
        t.post.pending.contains_key(f) == waiting_after(t.pre.pending.contains_key(f), t.event, f),
        entry(t.post.forwards, f) == standing_after(
            entry(t.pre.forwards, f),
            t.pre.pending.contains_key(f),
            entry(t.pre.initiated, f),
            t.event,
            f,
        ),
{
    reveal(asked_after);
    reveal(waiting_after);
    reveal(standing_after);
    reveal(is_turn);
}

proof fn lemma_turn_channels(t: Turn, c: u32)
    requires
        is_turn(t),
    ensures
        t.post.agent.contains_key(c) == agent_after(t.pre.agent.contains_key(c), t.event, c),
        t.post.tunnel.contains_key(c) == tunnel_after(t.pre.tunnel.contains_key(c), t.event, c),
        entry(t.post.channels, c) == forward_after(
            entry(t.pre.channels, c),
            t.pre.forwards.contains_key(accepts_for(t.event)),
            t.event,
            c,
        ),
{
    reveal(agent_after);
    reveal(tunnel_after);
    reveal(forward_after);
    reveal(is_turn);
}

proof fn lemma_forwards(run: Seq<Turn>, k: int, f: u32)
    requires
        is_run(run),
        0 <= k <= run.len(),
        run.len() > 0,
    ensures
        entry(state_at(run, k).initiated, f) == asked_port(run, k, f),
        state_at(run, k).pending.contains_key(f) == is_waiting(run, k, f),
        entry(state_at(run, k).forwards, f) == standing(run, k, f),
    decreases k,
{
    if k > 0 {
        lemma_forwards(run, k - 1, f);
        lemma_chain(run, k);
        lemma_turn_forwards(run[k - 1], f);
    }
}

proof fn lemma_channels(run: Seq<Turn>, k: int, c: u32)
    requires
        is_run(run),
        0 <= k <= run.len(),
        run.len() > 0,
    ensures
        state_at(run, k).agent.contains_key(c) == agent_open(run, k, c),
        state_at(run, k).tunnel.contains_key(c) == tunnel_open(run, k, c),
        entry(state_at(run, k).channels, c) == forward_open(run, k, c),
    decreases k,
{
    if k > 0 {
        lemma_channels(run, k - 1, c);
        lemma_chain(run, k);
        lemma_turn_channels(run[k - 1], c);
        lemma_forwards(run, k - 1, accepts_for(run[k - 1].event));
    }
}

/// Whether a relay holds a channel as open.
pub open spec fn holds(m: RelayModel, side: Side, ch: u32) -> bool {
    match side {
        Side::Agent => m.agent.contains_key(ch),
        Side::Tunnel => m.tunnel.contains_key(ch),
        Side::Forward => m.channels.contains_key(ch),
    }
}

/// Whether no action hands anything over, sends anything on, or shows output.
spec fn quiet(acts: Seq<RelayAction>) -> bool {
    forall|i: int|
        0 <= i < acts.len() ==> match #[trigger] acts[i] {
            RelayAction::DeliverAgent { .. } => false,
            RelayAction::DeliverTunnel { .. } => false,
            RelayAction::DeliverForward { .. } => false,
            RelayAction::Write(_) => false,
            RelayAction::Send(f) => !(f is AgentData || f is TunnelData || f is PortForwardData),
            RelayAction::Notify(f) => !(f is AgentData || f is TunnelData || f is PortForwardData),
            _ => true,
        }
}

proof fn lemma_quiet(acts: Seq<RelayAction>, side: Side, ch: u32)
    requires
        quiet(acts),
    ensures
        all_handed(acts, side, ch) == Seq::<u8>::empty(),
        all_sent(acts, side, ch) == Seq::<u8>::empty(),
        all_shown(acts) == Seq::<u8>::empty(),
    decreases acts.len(),
{
    reveal(handed);
    reveal(carried);
    reveal(sent);
    if acts.len() > 0 {
        assert(acts.last() == acts[acts.len() - 1]);
        lemma_quiet(acts.drop_last(), side, ch);
    }
}

proof fn lemma_single(a: RelayAction, side: Side, ch: u32)
    ensures
        all_handed(seq![a], side, ch) == handed(a, side, ch),
        all_sent(seq![a], side, ch) == sent(a, side, ch),
        all_shown(seq![a]) == shown(a),
{
    reveal(handed);
    reveal(carried);
    reveal(sent);
    let acts = seq![a];
    assert(acts.drop_last() =~= Seq::<RelayAction>::empty());
    assert(all_handed(acts.drop_last(), side, ch) == Seq::<u8>::empty());
    assert(all_sent(acts.drop_last(), side, ch) == Seq::<u8>::empty());
    assert(all_shown(acts.drop_last()) == Seq::<u8>::empty());
    assert(all_handed(acts, side, ch) =~= handed(a, side, ch));
    assert(all_sent(acts, side, ch) =~= sent(a, side, ch));
    assert(all_shown(acts) =~= shown(a));
}

/// The output that an action puts on the terminal.
pub open spec fn shown(a: RelayAction) -> Seq<u8> {
    match a {
        RelayAction::Write(d) => d@,
        _ => seq![],
    }
}

/// All output that actions put on the terminal, in order.
pub open spec fn all_shown(acts: Seq<RelayAction>) -> Seq<u8>
    decreases acts.len(),
{
    if acts.len() == 0 {
        seq![]
    } else {
        all_shown(acts.drop_last()) + shown(acts.last())
    }
}

/// The output that an event brings: what the session prints, and what the
/// server says beside it.
#[verifier::opaque]
pub open spec fn output_of(e: Event) -> Seq<u8> {
    match e {
        Event::Server { frame: Frame::Data(d), now } => d@,
        Event::Server { frame: Frame::Notice(d), now } => d@,
        _ => seq![],
    }
}

proof fn lemma_typing_is_quiet(
    acts: Seq<RelayAction>,
    events: Seq<Escaped>,
    m: RelayModel,
    f: relay::StatusFacts,
)
    requires
        relay::acts_on(acts, events, m, f),
    ensures
        quiet(acts),
    decreases events.len(),
{
    if events.len() > 0 {
        let before = events.drop_last();
        match events.last() {
            Escaped::Reconnect => {
                lemma_typing_is_quiet(acts, before, m, f);
            },
            Escaped::Status => {
                let head = acts.drop_last().drop_last();
                lemma_typing_is_quiet(head, before, m, f);
                assert forall|i: int| 0 <= i < head.len() implies acts[i] == #[trigger] head[i] by {}
                assert(quiet(acts)) by {
                    assert forall|i: int| 0 <= i < acts.len() implies match #[trigger] acts[i] {
                        RelayAction::DeliverAgent { .. } => false,
                        RelayAction::DeliverTunnel { .. } => false,
                        RelayAction::DeliverForward { .. } => false,
                        RelayAction::Write(_) => false,
                        RelayAction::Send(f) => !(f is AgentData || f is TunnelData
                            || f is PortForwardData),
                        RelayAction::Notify(f) => !(f is AgentData || f is TunnelData
                            || f is PortForwardData),
                        _ => true,
                    } by {
                        if i < head.len() {
                            assert(acts[i] == head[i]);
                        } else if i == acts.len() - 1 {
                            assert(acts[i] == acts.last());
                        } else {
                            assert(i == acts.len() - 2);
                        }
                    }
                }
            },
            _ => {
                let head = acts.drop_last();
                lemma_typing_is_quiet(head, before, m, f);
                assert forall|i: int| 0 <= i < acts.len() implies match #[trigger] acts[i] {
                    RelayAction::DeliverAgent { .. } => false,
                    RelayAction::DeliverTunnel { .. } => false,
                    RelayAction::DeliverForward { .. } => false,
                    RelayAction::Write(_) => false,
                    RelayAction::Send(f) => !(f is AgentData || f is TunnelData
                        || f is PortForwardData),
                    RelayAction::Notify(f) => !(f is AgentData || f is TunnelData
                        || f is PortForwardData),
                    _ => true,
                } by {
                    if i < head.len() {
                        assert(acts[i] == head[i]);
                    } else {
                        assert(acts[i] == acts.last());
                    }
                }
            },
        }
    }
}

/// Whether an event's bytes are passed on by one action.
spec fn passes(e: Event) -> bool {
    match e {
        Event::Server { frame, now } => frame is Data || frame is Notice || frame is AgentData
            || frame is TunnelData || frame is PortForwardData,
        Event::Agent(a) => a is Data,
        Event::Tunnel(a) => a is Data,
        Event::Forward(a) => a is Data,
        _ => false,
    }
}

proof fn lemma_turn_is_quiet(t: Turn)
    requires
        is_turn(t),
        !passes(t.event),
    ensures
        quiet(t.acts),
{
    reveal(is_turn);
    match t.event {
        Event::Typed(y) => {
            let end = choose|end: escape::EscapeState| #[trigger]
                relay::input_effect(t.pre, y, end, t.acts, t.exit);
            let stale = chrome::wall_between(t.pre.last_activity, y.now.wall) > y.hb_timeout;
            let run = escape::escapes(y.state, seq![], y.input);
            if !stale && y.escapes_on {
                lemma_typing_is_quiet(t.acts, run.0, t.pre, y.facts);
            }
        },
        Event::Server { frame, now } => {
            if frame is Detached || frame is ServerShutdown {
                assert(t.acts[1] == t.acts.skip(1)[0]);
            }
            if let Frame::PortForwardStop { forward_id } = frame {
                if t.pre.pending.contains_key(forward_id) {
                    assert forall|i: int| 0 < i < t.acts.len() implies #[trigger] t.acts[i]
                        == t.acts.skip(1)[i - 1] by {}
                }
            }
        },
        _ => {},
    }
}

proof fn lemma_turn_passes(t: Turn, side: Side, ch: u32)
    requires
        is_turn(t),
    ensures
        all_handed(t.acts, side, ch) == if holds(t.pre, side, ch) {
            brought(t.event, side, ch)
        } else {
            seq![]
        },
        all_sent(t.acts, side, ch) == if side is Tunnel || holds(t.pre, side, ch) {
            given(t.event, side, ch)
        } else {
            seq![]
        },
        all_shown(t.acts) == output_of(t.event),
{
    reveal(handed);
    reveal(carried);
    reveal(sent);
    reveal(brought);
    reveal(given);
    reveal(output_of);
    if !passes(t.event) {
        lemma_turn_is_quiet(t);
        lemma_quiet(t.acts, side, ch);
    } else {
        reveal(is_turn);
        if t.acts.len() == 0 {
            lemma_quiet(t.acts, side, ch);
        } else {
            assert(t.acts =~= seq![t.acts[0]]);
            lemma_single(t.acts[0], side, ch);
        }
    }
}

/// What was handed to the local end of a channel in the first `k` turns.
pub open spec fn handed_over(run: Seq<Turn>, k: int, side: Side, ch: u32) -> Seq<u8>
    decreases k,
{
    if k <= 0 {
        seq![]
    } else {
        handed_over(run, k - 1, side, ch) + all_handed(run[k - 1].acts, side, ch)
    }
}

/// What the server brought for a channel while it was open, in the first `k`
/// turns.
pub open spec fn brought_over(run: Seq<Turn>, k: int, side: Side, ch: u32) -> Seq<u8>
    decreases k,
{
    if k <= 0 {
        seq![]
    } else {
        brought_over(run, k - 1, side, ch) + if is_open(run, k - 1, side, ch) {
            brought(run[k - 1].event, side, ch)
        } else {
            seq![]
        }
    }
}

/// What was sent to the server on a channel in the first `k` turns.
pub open spec fn sent_on(run: Seq<Turn>, k: int, side: Side, ch: u32) -> Seq<u8>
    decreases k,
{
    if k <= 0 {
        seq![]
    } else {
        sent_on(run, k - 1, side, ch) + all_sent(run[k - 1].acts, side, ch)
    }
}

/// What the local end of a channel gave while it was open, in the first `k`
/// turns. A connection that followed a redirect is heard to its end.
pub open spec fn given_over(run: Seq<Turn>, k: int, side: Side, ch: u32) -> Seq<u8>
    decreases k,
{
    if k <= 0 {
        seq![]
    } else {
        given_over(run, k - 1, side, ch) + if side is Tunnel || is_open(run, k - 1, side, ch) {
            given(run[k - 1].event, side, ch)
        } else {
            seq![]
        }
    }
}

/// What was put on the terminal in the first `k` turns.
pub open spec fn shown_over(run: Seq<Turn>, k: int) -> Seq<u8>
    decreases k,
{
    if k <= 0 {
        seq![]
    } else {
        shown_over(run, k - 1) + all_shown(run[k - 1].acts)
    }
}

/// The output that came in the first `k` turns.
pub open spec fn output_over(run: Seq<Turn>, k: int) -> Seq<u8>
    decreases k,
{
    if k <= 0 {
        seq![]
    } else {
        output_over(run, k - 1) + output_of(run[k - 1].event)
    }
}

proof fn lemma_open(run: Seq<Turn>, k: int, side: Side, ch: u32)
    requires
        is_run(run),
        0 <= k <= run.len(),
        run.len() > 0,
    ensures
        holds(state_at(run, k), side, ch) == is_open(run, k, side, ch),
{
    lemma_channels(run, k, ch);
}

/// What the server sends on a channel reaches its local end: the agent, the
/// redirect or the forwarded connection gets exactly the bytes that came for it
/// while it was open, in order, and never any other.
pub proof fn law_what_the_server_sends_arrives(run: Seq<Turn>, k: int, side: Side, ch: u32)
    requires
        is_run(run),
        0 <= k <= run.len(),
    ensures
        handed_over(run, k, side, ch) == brought_over(run, k, side, ch),
    decreases k,
{
    if k > 0 {
        law_what_the_server_sends_arrives(run, k - 1, side, ch);
        lemma_chain(run, k);
        lemma_turn_passes(run[k - 1], side, ch);
        lemma_open(run, k - 1, side, ch);
    }
}

/// What the local end of a channel gives reaches the server: exactly the bytes
/// that the agent, the redirect or the forwarded connection gave while it was
/// open, in order, and never any other.
pub proof fn law_what_is_given_here_is_sent(run: Seq<Turn>, k: int, side: Side, ch: u32)
    requires
        is_run(run),
        0 <= k <= run.len(),
    ensures
        sent_on(run, k, side, ch) == given_over(run, k, side, ch),
    decreases k,
{
    if k > 0 {
        law_what_is_given_here_is_sent(run, k - 1, side, ch);
        lemma_chain(run, k);
        lemma_turn_passes(run[k - 1], side, ch);
        lemma_open(run, k - 1, side, ch);
    }
}

/// What the session prints is shown: the terminal gets exactly the bytes that
/// came, in order.
pub proof fn law_output_is_shown(run: Seq<Turn>, k: int)
    requires
        is_run(run),
        0 <= k <= run.len(),
    ensures
        shown_over(run, k) == output_over(run, k),
    decreases k,
{
    if k > 0 {
        law_output_is_shown(run, k - 1);
        lemma_chain(run, k);
        lemma_turn_passes(run[k - 1], Side::Agent, 0);
    }
}

/// Every connection begins with nothing open.
pub proof fn law_connections_begin_empty(
    screen: crate::alt_screen::Screen,
    agent_socket: bool,
    oauth_redirect: bool,
    forward_open: bool,
    rendered_offset: u64,
    l: crate::rate::SecurityLimiters,
    now: Now,
    lost: RelayModel,
)
    ensures
        nothing_open(
            relay::fresh_relay(
                screen,
                agent_socket,
                oauth_redirect,
                forward_open,
                rendered_offset,
                l,
                now,
            ),
        ),
        nothing_open(relay::next_relay(lost, now)),
{
}

/// The place in the output of the session that the terminal has reached in the
/// first `k` turns, from `start`: every byte that was shown moves it, and the
/// server can set it anew.
pub open spec fn place(run: Seq<Turn>, k: int, start: u64) -> int
    decreases k,
{
    if k <= 0 {
        start as int
    } else {
        match run[k - 1].event {
            Event::Server { frame: Frame::Data(d), now } => place(run, k - 1, start) + d@.len(),
            Event::Server { frame: Frame::Resume { offset }, now } => offset as int,
            _ => place(run, k - 1, start),
        }
    }
}

/// The relay always knows how far the terminal has got, and the next connection
/// goes on from there: with the same screen, the same switches, and all that
/// the limits remember.
pub proof fn law_goes_on_where_it_stopped(run: Seq<Turn>, k: int, now: Now)
    requires
        is_run(run),
        run.len() > 0,
        0 <= k <= run.len(),
    ensures
        state_at(run, k).rendered_offset == place(run, k, run[0].pre.rendered_offset),
        ({
            let m = state_at(run, k);
            let next = relay::next_relay(m, now);
            &&& next.rendered_offset == m.rendered_offset
            &&& next.screen == m.screen
            &&& next.agent_socket == m.agent_socket
            &&& next.oauth_redirect == m.oauth_redirect
            &&& next.forward_open == m.forward_open
            &&& next.url == m.url
            &&& next.clipboard_set == m.clipboard_set
            &&& next.tunnel_listen == m.tunnel_listen
            &&& next.agent_open == m.agent_open
            &&& next.last_activity == now.wall
        }),
    decreases k,
{
    if k > 0 {
        law_goes_on_where_it_stopped(run, k - 1, now);
        lemma_chain(run, k);
        lemma_turn_place(run[k - 1]);
    }
}

proof fn lemma_turn_place(t: Turn)
    requires
        is_turn(t),
    ensures
        t.post.rendered_offset == match t.event {
            Event::Server { frame: Frame::Data(d), now } => t.pre.rendered_offset + d@.len(),
            Event::Server { frame: Frame::Resume { offset }, now } => offset as int,
            _ => t.pre.rendered_offset as int,
        },
{
    reveal(is_turn);
}

/// When the server was last heard in the first `k` turns: with any message. A
/// suspension does not count as silence.
pub open spec fn heard_at(run: Seq<Turn>, k: int) -> u64
    decreases k,
{
    if k <= 0 {
        run[0].pre.last_activity
    } else {
        match run[k - 1].event {
            Event::Server { frame, now } => now.wall,
            Event::Resumed { cols, rows, now } => now.wall,
            _ => heard_at(run, k - 1),
        }
    }
}

/// When something last got through to the server in the first `k` turns.
pub open spec fn spoke_at(run: Seq<Turn>, k: int) -> u64
    decreases k,
{
    if k <= 0 {
        run[0].pre.last_outbound
    } else {
        match run[k - 1].event {
            Event::Sent { now } => now.mono,
            _ => spoke_at(run, k - 1),
        }
    }
}

proof fn lemma_turn_clocks(t: Turn)
    requires
        is_turn(t),
    ensures
        t.post.last_activity == match t.event {
            Event::Server { frame, now } => now.wall,
            Event::Resumed { cols, rows, now } => now.wall,
            _ => t.pre.last_activity,
        },
        t.post.last_outbound == match t.event {
            Event::Sent { now } => now.mono,
            _ => t.pre.last_outbound,
        },
{
    reveal(is_turn);
}

proof fn lemma_clocks(run: Seq<Turn>, k: int)
    requires
        is_run(run),
        run.len() > 0,
        0 <= k <= run.len(),
    ensures
        state_at(run, k).last_activity == heard_at(run, k),
        state_at(run, k).last_outbound == spoke_at(run, k),
    decreases k,
{
    if k > 0 {
        lemma_clocks(run, k - 1);
        lemma_chain(run, k);
        lemma_turn_clocks(run[k - 1]);
    }
}

/// Whether an action probes the link.
pub open spec fn is_ping(a: RelayAction) -> bool {
    a == RelayAction::Send(Frame::Ping)
}

/// A dead link is noticed: a tick of the heartbeat gives a link up exactly when
/// the server has been silent for longer than the limit, and until then probes
/// it whenever nothing was sent or heard for a whole interval.
pub proof fn law_dead_links_are_noticed(run: Seq<Turn>, k: int)
    requires
        is_run(run),
        0 <= k < run.len(),
    ensures
        run[k].event matches Event::Heartbeat { hb_interval, hb_timeout, now } ==> {
            let silent = now.wall - heard_at(run, k);
            let idle = now.mono - spoke_at(run, k);
            &&& run[k].exit == Some(RelayExit::Disconnected) <==> silent > hb_timeout
            &&& run[k].exit is Some ==> run[k].exit == Some(RelayExit::Disconnected)
            &&& run[k].exit is None && (idle >= hb_interval || silent >= hb_interval)
                ==> run[k].acts.len() == 1 && is_ping(run[k].acts[0])
            &&& run[k].acts.len() > 0 ==> is_ping(run[k].acts[0])
        },
{
    lemma_clocks(run, k);
    lemma_chain(run, k + 1);
    reveal(is_turn);
}

/// A relay ends only for a reason: the server said so, the user left or wished
/// to reconnect, or the link is dead. The exit code of the session is the exit
/// code of the client.
pub proof fn law_relay_ends_for_a_reason(run: Seq<Turn>, k: int)
    requires
        is_run(run),
        0 <= k < run.len(),
    ensures
        run[k].exit is Some ==> match run[k].event {
            Event::Server { frame, now } => frame is Exit || frame is Detached
                || frame is ServerShutdown,
            Event::Typed(y) => y.escapes_on || y.now.wall - heard_at(run, k) > y.hb_timeout,
            Event::Heartbeat { hb_interval, hb_timeout, now } => now.wall - heard_at(run, k)
                > hb_timeout,
            _ => false,
        },
        run[k].event matches Event::Server { frame: Frame::Exit { code }, now } ==> run[k].exit
            == Some(RelayExit::Exit(code)),
        run[k].event matches Event::Server { frame: Frame::Detached, now } ==> run[k].exit == Some(
            RelayExit::Exit(0),
        ),
        run[k].event matches Event::Server { frame: Frame::ServerShutdown, now } ==> run[k].exit
            == Some(RelayExit::Exit(1)),
{
    lemma_clocks(run, k);
    lemma_chain(run, k + 1);
    reveal(is_turn);
}

/// Connections lead where the command that asked for the forward said: one that
/// the server opens for a forward is connected to the port that was asked for,
/// or refused where none was; one that comes in here is announced to the server
/// with that port.
pub proof fn law_forwarded_connections_are_made(run: Seq<Turn>, k: int)
    requires
        is_run(run),
        0 <= k < run.len(),
    ensures
        run[k].event matches Event::Server {
            frame: Frame::PortForwardOpen { forward_id, channel_id, target_port },
            now,
        } ==> run[k].acts == match asked_port(run, k, forward_id) {
            Some(port) => seq![RelayAction::ConnectForward { forward_id, channel_id, port }],
            None => seq![RelayAction::Notify(Frame::PortForwardClose { channel_id })],
        },
        run[k].event matches Event::Forward(ForwardEvent::Accepted { forward_id, channel_id })
            ==> run[k].acts == match standing(run, k, forward_id) {
            Some(target_port) => seq![
                RelayAction::Send(Frame::PortForwardOpen { forward_id, channel_id, target_port }),
            ],
            None => seq![],
        },
        run[k].event matches Event::Tunnel(TunnelEvent::Accepted { channel_id }) ==> run[k].acts
            == seq![RelayAction::Send(Frame::TunnelOpen { channel_id })],
{
    lemma_chain(run, k + 1);
    match run[k].event {
        Event::Server {
            frame: Frame::PortForwardOpen { forward_id, channel_id, target_port },
            now,
        } => {
            lemma_forwards(run, k, forward_id);
        },
        Event::Forward(ForwardEvent::Accepted { forward_id, channel_id }) => {
            lemma_forwards(run, k, forward_id);
        },
        _ => {},
    }
    reveal(is_turn);
}

/// Whether an answer tells the command behind a forward that it is up.
pub open spec fn says_up(a: RelayAction, f: u32) -> bool {
    relay::replies(a, f, seq![1u8])
}

/// Whether an answer tells the command behind a forward that it failed.
pub open spec fn says_failed(a: RelayAction, f: u32) -> bool {
    a matches RelayAction::ReplyForward { forward_id, reply } && forward_id == f && reply@.len() > 1
        && reply@[0] == 2
}

/// A command that waits for a forward gets its answer: that the forward is up,
/// once the server confirms it, or that it failed, once the server stops it;
/// and a command is told nothing it does not wait for.
pub proof fn law_waiting_commands_are_answered(run: Seq<Turn>, k: int)
    requires
        is_run(run),
        0 <= k < run.len(),
    ensures
        run[k].event matches Event::Server {
            frame: Frame::PortForwardReady { forward_id },
            now,
        } ==> if is_waiting(run, k, forward_id) {
            &&& run[k].acts.len() == 2
            &&& says_up(run[k].acts[0], forward_id)
            &&& run[k].acts[1] == RelayAction::StartKeepalive { forward_id }
        } else {
            run[k].acts.len() == 0
        },
        run[k].event matches Event::Server { frame: Frame::PortForwardStop { forward_id }, now }
            ==> {
            let acts = run[k].acts;
            &&& acts.len() > 0
            &&& acts.last() == RelayAction::DropForwardChannels { forward_id }
            &&& says_failed(acts[0], forward_id) <==> is_waiting(run, k, forward_id)
            &&& standing(run, k, forward_id) is Some <==> exists|i: int|
                0 <= i < acts.len() && #[trigger] acts[i] == RelayAction::StopForward { forward_id }
        },
        run[k].event matches Event::Requested { id, r, got_through } ==> match run[k].out {
            Some(ForwardStep::Wait) => got_through && r.direction == 0,
            Some(ForwardStep::Establish(b)) => got_through && r.direction != 0 && b@ == seq![1u8],
            Some(ForwardStep::Refuse(b)) => !got_through && b@.len() > 0 && b@[0] == 2,
            _ => false,
        },
{
    lemma_chain(run, k + 1);
    lemma_turn_answers(run[k]);
    match run[k].event {
        Event::Server { frame: Frame::PortForwardReady { forward_id }, now } => {
            lemma_forwards(run, k, forward_id);
        },
        Event::Server { frame: Frame::PortForwardStop { forward_id }, now } => {
            lemma_forwards(run, k, forward_id);
        },
        _ => {},
    }
}

proof fn lemma_turn_answers(t: Turn)
    requires
        is_turn(t),
    ensures
        t.event matches Event::Server {
            frame: Frame::PortForwardReady { forward_id },
            now,
        } ==> if t.pre.pending.contains_key(forward_id) {
            &&& t.acts.len() == 2
            &&& says_up(t.acts[0], forward_id)
            &&& t.acts[1] == RelayAction::StartKeepalive { forward_id }
        } else {
            t.acts.len() == 0
        },
        t.event matches Event::Server { frame: Frame::PortForwardStop { forward_id }, now }
            ==> {
            let acts = t.acts;
            &&& acts.len() > 0
            &&& acts.last() == RelayAction::DropForwardChannels { forward_id }
            &&& says_failed(acts[0], forward_id) <==> t.pre.pending.contains_key(forward_id)
            &&& t.pre.forwards.contains_key(forward_id) <==> exists|i: int|
                0 <= i < acts.len() && #[trigger] acts[i] == RelayAction::StopForward { forward_id }
        },
        t.event matches Event::Requested { id, r, got_through } ==> match t.out {
            Some(ForwardStep::Wait) => got_through && r.direction == 0,
            Some(ForwardStep::Establish(b)) => got_through && r.direction != 0 && b@ == seq![1u8],
            Some(ForwardStep::Refuse(b)) => !got_through && b@.len() > 0 && b@[0] == 2,
            _ => false,
        },
{
    reveal(is_turn);
    if let Event::Server { frame: Frame::PortForwardStop { forward_id }, now } = t.event {
        let acts = t.acts;
        let stop = RelayAction::StopForward { forward_id };
        let known = t.pre.forwards.contains_key(forward_id);
        if t.pre.pending.contains_key(forward_id) {
            assert(relay::replies(acts[0], forward_id, seq![2u8] + relay::server_bind_failed()));
            assert(acts.last() == acts.skip(1).last());
            if known {
                assert(acts[1] == acts.skip(1)[0]);
            } else {
                assert(acts[1] == acts.skip(1)[0]);
                assert(acts.len() == 2);
            }
        } else if known {
            assert(acts[0] == stop);
        }
    }
}

/// A forward is asked for as the command wishes: where this machine is to listen
/// it listens first, and then, as otherwise at once, the server is asked for
/// exactly that forward. If listening fails, the command is told.
pub proof fn law_forwards_are_asked_for_as_wished(run: Seq<Turn>, k: int)
    requires
        is_run(run),
        0 <= k < run.len(),
    ensures
        run[k].event matches Event::Asked { id, r } ==> match run[k].out {
            Some(ForwardStep::Bind) => r.direction == 1,
            Some(ForwardStep::Request(f)) => r.direction != 1 && asks_for(f, id, r),
            _ => false,
        },
        run[k].event matches Event::Bound { id, r, failure } ==> match run[k].out {
            Some(ForwardStep::Request(f)) => failure is None && asks_for(f, id, r),
            Some(ForwardStep::Refuse(b)) => failure is Some && b@.len() > 0 && b@[0] == 2,
            _ => false,
        },
{
    lemma_chain(run, k + 1);
    reveal(is_turn);
}

/// Whether a message asks the server for a forward.
pub open spec fn asks_for(f: Frame, id: u32, r: ForwardRequest) -> bool {
    f matches Frame::PortForwardRequest { forward_id, direction, listen_port, target_port }
        && forward_id == id && direction == r.direction && listen_port == r.listen_port
        && target_port == r.target_port
}

/// When one end of a channel closes, the other is told: a channel that the
/// server closes is closed here, and one that closes or cannot be had here is
/// closed there.
pub proof fn law_both_ends_close(run: Seq<Turn>, k: int)
    requires
        is_run(run),
        0 <= k < run.len(),
    ensures
        match run[k].event {
            Event::Server { frame: Frame::AgentClose { channel_id }, now } => run[k].acts == (
            if agent_open(run, k, channel_id) {
                seq![RelayAction::DropAgent { channel_id }]
            } else {
                seq![]
            }),
            Event::Server { frame: Frame::TunnelClose { channel_id }, now } => run[k].acts == (
            if tunnel_open(run, k, channel_id) {
                seq![RelayAction::DropTunnel { channel_id }]
            } else {
                seq![]
            }),
            Event::Server { frame: Frame::PortForwardClose { channel_id }, now } => run[k].acts == (
            if forward_open(run, k, channel_id) is Some {
                seq![RelayAction::DropForwardChannel { channel_id }]
            } else {
                seq![]
            }),
            Event::Agent(AgentEvent::Closed { channel_id }) => run[k].acts == (if agent_open(
                run,
                k,
                channel_id,
            ) {
                seq![RelayAction::Send(Frame::AgentClose { channel_id })]
            } else {
                seq![]
            }),
            Event::Tunnel(TunnelEvent::Closed { channel_id }) => run[k].acts == seq![
                RelayAction::Send(Frame::TunnelClose { channel_id }),
            ],
            Event::Forward(ForwardEvent::Closed { channel_id }) => run[k].acts == (
            if forward_open(run, k, channel_id) is Some {
                seq![RelayAction::Send(Frame::PortForwardClose { channel_id })]
            } else {
                seq![]
            }),
            Event::Agent(AgentEvent::Refused { channel_id }) => run[k].acts == seq![
                RelayAction::Notify(Frame::AgentClose { channel_id }),
            ],
            Event::Forward(ForwardEvent::Refused { channel_id }) => run[k].acts == seq![
                RelayAction::Notify(Frame::PortForwardClose { channel_id }),
            ],
            Event::Tunnel(TunnelEvent::BindFailed) => run[k].acts == seq![
                RelayAction::Notify(
                    Frame::TunnelClose { channel_id: relay::TUNNEL_DECLINE_CHANNEL },
                ),
            ],
            Event::Agent(AgentEvent::Backpressured { channel_id }) => run[k].acts == seq![
                RelayAction::DropAgent { channel_id },
                RelayAction::Notify(Frame::AgentClose { channel_id }),
            ],
            Event::Tunnel(TunnelEvent::Backpressured { channel_id }) => run[k].acts == seq![
                RelayAction::DropTunnel { channel_id },
                RelayAction::Notify(Frame::TunnelClose { channel_id }),
            ],
            Event::Forward(ForwardEvent::Backpressured { channel_id }) => run[k].acts == seq![
                RelayAction::DropForwardChannel { channel_id },
                RelayAction::Notify(Frame::PortForwardClose { channel_id }),
            ],
            Event::Forward(ForwardEvent::Stopped { forward_id }) => {
                let told = seq![
                    RelayAction::DropForwardChannels { forward_id },
                    RelayAction::Send(Frame::PortForwardStop { forward_id }),
                ];
                run[k].acts == (if standing(run, k, forward_id) is Some {
                    seq![RelayAction::StopForward { forward_id }] + told
                } else {
                    told
                })
            },
            _ => true,
        },
{
    lemma_chain(run, k + 1);
    lemma_turn_closes(run[k]);
    match run[k].event {
        Event::Server { frame: Frame::AgentClose { channel_id }, now } => {
            lemma_channels(run, k, channel_id);
        },
        Event::Server { frame: Frame::TunnelClose { channel_id }, now } => {
            lemma_channels(run, k, channel_id);
        },
        Event::Server { frame: Frame::PortForwardClose { channel_id }, now } => {
            lemma_channels(run, k, channel_id);
        },
        Event::Agent(AgentEvent::Closed { channel_id }) => {
            lemma_channels(run, k, channel_id);
        },
        Event::Forward(ForwardEvent::Closed { channel_id }) => {
            lemma_channels(run, k, channel_id);
        },
        Event::Forward(ForwardEvent::Stopped { forward_id }) => {
            lemma_forwards(run, k, forward_id);
        },
        _ => {},
    }
}

proof fn lemma_turn_closes(t: Turn)
    requires
        is_turn(t),
    ensures
        match t.event {
            Event::Server { frame: Frame::AgentClose { channel_id }, now } => t.acts == (
            if t.pre.agent.contains_key(channel_id) {
                seq![RelayAction::DropAgent { channel_id }]
            } else {
                seq![]
            }),
            Event::Server { frame: Frame::TunnelClose { channel_id }, now } => t.acts == (
            if t.pre.tunnel.contains_key(channel_id) {
                seq![RelayAction::DropTunnel { channel_id }]
            } else {
                seq![]
            }),
            Event::Server { frame: Frame::PortForwardClose { channel_id }, now } => t.acts == (
            if t.pre.channels.contains_key(channel_id) {
                seq![RelayAction::DropForwardChannel { channel_id }]
            } else {
                seq![]
            }),
            Event::Agent(AgentEvent::Closed { channel_id }) => t.acts == (if t.pre.agent.contains_key(channel_id) {
                seq![RelayAction::Send(Frame::AgentClose { channel_id })]
            } else {
                seq![]
            }),
            Event::Tunnel(TunnelEvent::Closed { channel_id }) => t.acts == seq![
                RelayAction::Send(Frame::TunnelClose { channel_id }),
            ],
            Event::Forward(ForwardEvent::Closed { channel_id }) => t.acts == (
            if t.pre.channels.contains_key(channel_id) {
                seq![RelayAction::Send(Frame::PortForwardClose { channel_id })]
            } else {
                seq![]
            }),
            Event::Agent(AgentEvent::Refused { channel_id }) => t.acts == seq![
                RelayAction::Notify(Frame::AgentClose { channel_id }),
            ],
            Event::Forward(ForwardEvent::Refused { channel_id }) => t.acts == seq![
                RelayAction::Notify(Frame::PortForwardClose { channel_id }),
            ],
            Event::Tunnel(TunnelEvent::BindFailed) => t.acts == seq![
                RelayAction::Notify(
                    Frame::TunnelClose { channel_id: relay::TUNNEL_DECLINE_CHANNEL },
                ),
            ],
            Event::Agent(AgentEvent::Backpressured { channel_id }) => t.acts == seq![
                RelayAction::DropAgent { channel_id },
                RelayAction::Notify(Frame::AgentClose { channel_id }),
            ],
            Event::Tunnel(TunnelEvent::Backpressured { channel_id }) => t.acts == seq![
                RelayAction::DropTunnel { channel_id },
                RelayAction::Notify(Frame::TunnelClose { channel_id }),
            ],
            Event::Forward(ForwardEvent::Backpressured { channel_id }) => t.acts == seq![
                RelayAction::DropForwardChannel { channel_id },
                RelayAction::Notify(Frame::PortForwardClose { channel_id }),
            ],
            Event::Forward(ForwardEvent::Stopped { forward_id }) => {
                let told = seq![
                    RelayAction::DropForwardChannels { forward_id },
                    RelayAction::Send(Frame::PortForwardStop { forward_id }),
                ];
                t.acts == (if t.pre.forwards.contains_key(forward_id) {
                    seq![RelayAction::StopForward { forward_id }] + told
                } else {
                    told
                })
            },
            _ => true,
        },
{
    reveal(is_turn);
    if let Event::Forward(ForwardEvent::Stopped { forward_id }) = t.event {
        let told = seq![
            RelayAction::DropForwardChannels { forward_id },
            RelayAction::Send(Frame::PortForwardStop { forward_id }),
        ];
        assert(seq![RelayAction::StopForward { forward_id }] + told =~= seq![
            RelayAction::StopForward { forward_id },
            RelayAction::DropForwardChannels { forward_id },
            RelayAction::Send(Frame::PortForwardStop { forward_id }),
        ]);
    }
}

/// The typed bytes that an action sends to the session.
pub open spec fn keyed(a: RelayAction) -> Seq<u8> {
    match a {
        RelayAction::Send(Frame::Data(v)) => v@,
        _ => seq![],
    }
}

/// All typed bytes that actions send to the session, in order.
pub open spec fn all_keyed(acts: Seq<RelayAction>) -> Seq<u8>
    decreases acts.len(),
{
    if acts.len() == 0 {
        seq![]
    } else {
        all_keyed(acts.drop_last()) + keyed(acts.last())
    }
}

/// The bytes among keys, in order.
pub open spec fn key_bytes(keys: Seq<Key>) -> Seq<u8>
    decreases keys.len(),
{
    if keys.len() == 0 {
        seq![]
    } else {
        key_bytes(keys.drop_last()) + match keys.last() {
            Key::Byte(b) => seq![b],
            Key::Command(_) => seq![],
        }
    }
}

proof fn lemma_key_bytes_add(a: Seq<Key>, b: Seq<Key>)
    ensures
        key_bytes(a + b) == key_bytes(a) + key_bytes(b),
    decreases b.len(),
{
    if b.len() == 0 {
        assert(a + b =~= a);
        assert(key_bytes(a) + key_bytes(b) =~= key_bytes(a));
    } else {
        lemma_key_bytes_add(a, b.drop_last());
        assert((a + b).drop_last() =~= a + b.drop_last());
        assert((a + b).last() == b.last());
        assert(key_bytes(a + b) =~= key_bytes(a) + key_bytes(b));
    }
}

proof fn lemma_key_bytes_data(d: Seq<u8>)
    ensures
        key_bytes(escape::bytes_as_keys(d)) == d,
    decreases d.len(),
{
    let keys = escape::bytes_as_keys(d);
    if d.len() > 0 {
        lemma_key_bytes_data(d.drop_last());
        assert(keys.drop_last() =~= escape::bytes_as_keys(d.drop_last()));
        assert(keys.last() == Key::Byte(d.last()));
        assert(d.drop_last() + seq![d.last()] =~= d);
    }
}

proof fn lemma_key_bytes_one(k: Key)
    ensures
        key_bytes(seq![k]) == match k {
            Key::Byte(b) => seq![b],
            Key::Command(_) => seq![],
        },
{
    let one = seq![k];
    assert(one.drop_last() =~= Seq::<Key>::empty());
    assert(key_bytes(one.drop_last()) == Seq::<u8>::empty());
    assert(key_bytes(one) =~= match k {
        Key::Byte(b) => seq![b],
        Key::Command(_) => seq![],
    });
}

proof fn lemma_acts_send_the_keys(
    acts: Seq<RelayAction>,
    events: Seq<Escaped>,
    m: RelayModel,
    f: relay::StatusFacts,
)
    requires
        relay::acts_on(acts, events, m, f),
    ensures
        all_keyed(acts) == key_bytes(escape::keys_of(events)),
    decreases events.len(),
{
    if events.len() > 0 {
        let before = events.drop_last();
        let keys = escape::keys_of(before);
        match events.last() {
            Escaped::Data(d) => {
                lemma_acts_send_the_keys(acts.drop_last(), before, m, f);
                lemma_key_bytes_add(keys, escape::bytes_as_keys(d));
                lemma_key_bytes_data(d);
            },
            Escaped::Reconnect => {
                lemma_acts_send_the_keys(acts, before, m, f);
                lemma_key_bytes_add(keys, seq![Key::Command(Escaped::Reconnect)]);
                lemma_key_bytes_one(Key::Command(Escaped::Reconnect));
                assert(all_keyed(acts) =~= key_bytes(escape::keys_of(events)));
            },
            Escaped::Status => {
                let head = acts.drop_last();
                lemma_acts_send_the_keys(head.drop_last(), before, m, f);
                lemma_key_bytes_add(keys, seq![Key::Command(Escaped::Status)]);
                lemma_key_bytes_one(Key::Command(Escaped::Status));
                assert(head.last() == acts[acts.len() - 2]);
                assert(all_keyed(head) =~= all_keyed(head.drop_last()));
                assert(all_keyed(acts) =~= key_bytes(escape::keys_of(events)));
            },
            other => {
                lemma_acts_send_the_keys(acts.drop_last(), before, m, f);
                lemma_key_bytes_add(keys, seq![Key::Command(other)]);
                lemma_key_bytes_one(Key::Command(other));
                assert(all_keyed(acts) =~= key_bytes(escape::keys_of(events)));
            },
        }
    }
}

/// Whether what is typed meets a link that the server was heard on recently.
pub open spec fn link_is_fresh(m: RelayModel, t: Typing) -> bool {
    t.now.wall - m.last_activity <= t.hb_timeout
}

/// What is typed reaches the session: every byte that is not part of an escape,
/// in order, and no other. With escapes off that is every byte.
pub proof fn law_typing_reaches_the_session(
    m: RelayModel,
    t: Typing,
    end: escape::EscapeState,
    acts: Seq<RelayAction>,
    exit: Option<RelayExit>,
)
    requires
        relay::input_effect(m, t, end, acts, exit),
        link_is_fresh(m, t),
    ensures
        all_keyed(acts) == if t.escapes_on {
            key_bytes(escape::typed(t.state, t.input))
        } else {
            t.input
        },
{
    if t.escapes_on {
        let run = escape::escapes(t.state, seq![], t.input);
        lemma_acts_send_the_keys(acts, run.0, m, t.facts);
        escape::law_escapes_keep_every_key(t.state, seq![], t.input);
        assert(escape::bytes_as_keys(seq![]) =~= Seq::<Key>::empty());
        assert(Seq::<Key>::empty() + escape::typed(t.state, t.input) =~= escape::typed(
            t.state,
            t.input,
        ));
    } else {
        assert(acts.drop_last() =~= Seq::<RelayAction>::empty());
        assert(all_keyed(acts.drop_last()) == Seq::<u8>::empty());
        assert(all_keyed(acts) =~= t.input);
    }
}

/// Into a dead link nothing is typed: the client goes straight to reconnecting.
pub proof fn law_nothing_is_typed_into_the_void(
    m: RelayModel,
    t: Typing,
    end: escape::EscapeState,
    acts: Seq<RelayAction>,
    exit: Option<RelayExit>,
)
    requires
        relay::input_effect(m, t, end, acts, exit),
        !link_is_fresh(m, t),
    ensures
        acts.len() == 0,
        exit == Some(RelayExit::Disconnected),
        end == t.state,
{
}

/// Where in a line typing stands after bytes that hold no tilde.
pub open spec fn line_after(state: escape::EscapeState, plain: Seq<u8>) -> escape::EscapeState {
    if plain.len() == 0 {
        state
    } else if plain.last() == 0x0a || plain.last() == 0x0d {
        escape::EscapeState::AfterNewline
    } else {
        escape::EscapeState::Normal
    }
}

proof fn lemma_plain_lead(
    state: escape::EscapeState,
    pending: Seq<u8>,
    plain: Seq<u8>,
    rest: Seq<u8>,
)
    requires
        !(state is AfterTilde),
        !plain.contains(0x7e),
    ensures
        escape::escapes(state, pending, plain + rest) == escape::escapes(
            line_after(state, plain),
            pending + plain,
            rest,
        ),
    decreases plain.len(),
{
    if plain.len() == 0 {
        assert(plain + rest =~= rest);
        assert(pending + plain =~= pending);
    } else {
        let b = plain[0];
        let tail = plain.skip(1);
        assert(plain.contains(b));
        assert(!tail.contains(0x7e)) by {
            if tail.contains(0x7e) {
                let i = choose|i: int| 0 <= i < tail.len() && tail[i] == 0x7e;
                assert(plain[i + 1] == 0x7e);
            }
        }
        assert((plain + rest)[0] == b);
        assert((plain + rest).skip(1) =~= tail + rest);
        lemma_plain_lead(escape::after_byte(b), pending.push(b), tail, rest);
        assert(pending.push(b) + tail =~= pending + plain);
        if tail.len() > 0 {
            assert(tail.last() == plain.last());
        } else {
            assert(plain.last() == b);
        }
    }
}

/// Whether some action is `a`.
pub open spec fn has_act(acts: Seq<RelayAction>, a: RelayAction) -> bool {
    exists|i: int| 0 <= i < acts.len() && #[trigger] acts[i] == a
}

/// Whether some action prints a text.
pub open spec fn has_print(acts: Seq<RelayAction>, s: Seq<char>) -> bool {
    exists|i: int|
        0 <= i < acts.len() && (#[trigger] acts[i] matches RelayAction::Print(t) && t@ == s)
}

/// Text without a tilde is passed on as it is, and asks for nothing else.
pub proof fn law_plain_text_is_only_passed_on(
    m: RelayModel,
    t: Typing,
    end: escape::EscapeState,
    acts: Seq<RelayAction>,
    exit: Option<RelayExit>,
)
    requires
        relay::input_effect(m, t, end, acts, exit),
        link_is_fresh(m, t),
        t.escapes_on,
        !(t.state is AfterTilde),
        !t.input.contains(0x7e),
    ensures
        all_keyed(acts) == t.input,
        exit is None,
        end == line_after(t.state, t.input),
        forall|i: int| 0 <= i < acts.len() ==> (#[trigger] acts[i] matches RelayAction::Send(f)
            && f is Data),
{
    reveal_with_fuel(relay::acts_on, 2);
    lemma_plain_lead(t.state, seq![], t.input, seq![]);
    assert(t.input + Seq::<u8>::empty() =~= t.input);
    assert(Seq::<u8>::empty() + t.input =~= t.input);
    let run = escape::escapes(t.state, seq![], t.input);
    assert(run.0 == escape::flushed(t.input));
    if t.input.len() == 0 {
        assert(acts.len() == 0);
    } else {
        assert(run.0.drop_last() =~= Seq::<Escaped>::empty());
        assert(acts.drop_last().len() == 0);
        assert(acts.drop_last() =~= Seq::<RelayAction>::empty());
        assert(all_keyed(acts.drop_last()) == Seq::<u8>::empty());
        assert(all_keyed(acts) =~= t.input);
        assert(acts[0] == acts.last());
    }
}

/// An escape at the beginning of a line does what the help says, after the text
/// before it was passed on: `~.` detaches, `~R` reconnects, `~^Z` suspends, `~K`
/// pins the session, `~#` shows the status and asks the server for its own,
/// `~?` shows the help, `~~` sends one tilde, and any other byte is passed on
/// with its tilde.
pub proof fn law_escapes_do_what_they_say(
    m: RelayModel,
    t: Typing,
    end: escape::EscapeState,
    acts: Seq<RelayAction>,
    exit: Option<RelayExit>,
    text: Seq<u8>,
    c: u8,
)
    requires
        relay::input_effect(m, t, end, acts, exit),
        link_is_fresh(m, t),
        t.escapes_on,
        !(t.state is AfterTilde),
        !text.contains(0x7e),
        line_after(t.state, text) is AfterNewline,
        t.input == text + seq![0x7eu8, c],
    ensures
        exit == if c == 0x2e {
            Some(RelayExit::Exit(0))
        } else if c == 0x52 {
            Some(RelayExit::Disconnected)
        } else {
            None
        },
        all_keyed(acts) == if c == 0x7e {
            text.push(0x7e)
        } else if c == 0x2e || c == 0x52 || c == 0x1a || c == 0x4b || c == 0x23 || c == 0x3f {
            text
        } else {
            text + seq![0x7eu8, c]
        },
        has_act(acts, RelayAction::Suspend) <==> c == 0x1a,
        has_act(acts, RelayAction::Send(Frame::Pin)) <==> c == 0x4b,
        has_act(acts, RelayAction::Send(Frame::DiagRequest)) <==> c == 0x23,
        c == 0x3f ==> has_print(acts, escape::ESCAPE_HELP@),
        c == 0x23 ==> acts.len() > 1 && (acts[acts.len() - 2] matches RelayAction::Print(p)
            && relay::is_report(p@, m, t.facts)),
{
    let two = seq![0x7eu8, c];
    let start = line_after(t.state, text);
    lemma_plain_lead(t.state, seq![], text, two);
    assert(Seq::<u8>::empty() + text =~= text);
    let run = escape::escapes(t.state, seq![], t.input);
    assert(run == escape::escapes(start, text, two));
    assert(two.skip(1) =~= seq![c]);
    assert(seq![c].skip(1) =~= Seq::<u8>::empty());
    let r = escape::escapes(escape::EscapeState::AfterTilde, seq![], seq![c]);
    reveal_with_fuel(escape::escapes, 3);
    assert(run.0 == escape::flushed(text) + r.0);
    lemma_escape_events(c, r.0);
    lemma_acts_after_text(m, t.facts, acts, text, r.0);
    assert(text + seq![0x7eu8] =~= text.push(0x7e));
    assert(text + Seq::<u8>::empty() =~= text);
    let events = run.0;
    assert(events.last() == r.0[0]);
    let n = acts.len();
    if c == 0x1a || c == 0x4b || c == 0x23 || c == 0x3f {
        assert(acts[n - 1] == acts.last());
    }
    if n > 1 && r.0[0] is Status {
        if n > 2 {
            assert(acts[0] == acts.drop_last().drop_last()[0]);
        }
    } else if n > 1 && !(r.0[0] is Reconnect) {
        assert(acts[0] == acts.drop_last()[0]);
    }
    if n > 0 {
        assert(acts[n - 1] == acts.last());
    }
}

proof fn lemma_escape_events(c: u8, events: Seq<Escaped>)
    requires
        events == escape::escapes(escape::EscapeState::AfterTilde, seq![], seq![c]).0,
    ensures
        events == if c == 0x2e {
            seq![Escaped::Detach]
        } else if c == 0x52 {
            seq![Escaped::Reconnect]
        } else if c == 0x1a {
            seq![Escaped::Suspend]
        } else if c == 0x4b {
            seq![Escaped::Pin]
        } else if c == 0x23 {
            seq![Escaped::Status]
        } else if c == 0x3f {
            seq![Escaped::Help]
        } else if c == 0x7e {
            seq![Escaped::Data(seq![0x7eu8])]
        } else {
            seq![Escaped::Data(seq![0x7eu8, c])]
        },
{
    reveal_with_fuel(escape::escapes, 3);
    assert(seq![c].skip(1) =~= Seq::<u8>::empty());
    let e = Seq::<u8>::empty();
    assert(e.push(0x7e) =~= seq![0x7eu8]);
    assert(e.push(0x7e).push(c) =~= seq![0x7eu8, c]);
    if escape::command_of(c) is Some {
        let k = escape::command_of(c)->0;
        assert(escape::flushed(e).push(k) + escape::flushed(e) =~= seq![k]);
    }
    if c == 0x2e {
        assert(escape::flushed(e).push(Escaped::Detach) =~= seq![Escaped::Detach]);
    }
    if c == 0x52 {
        assert(escape::flushed(e).push(Escaped::Reconnect) =~= seq![Escaped::Reconnect]);
    }
}

proof fn lemma_acts_after_text(
    m: RelayModel,
    f: relay::StatusFacts,
    acts: Seq<RelayAction>,
    text: Seq<u8>,
    one: Seq<Escaped>,
)
    requires
        relay::acts_on(acts, escape::flushed(text) + one, m, f),
        one.len() == 1,
    ensures
        ({
            let tail = if one[0] is Reconnect {
                acts
            } else if one[0] is Status {
                acts.drop_last().drop_last()
            } else {
                acts.drop_last()
            };
            relay::acts_on(tail, escape::flushed(text), m, f) && tail.len() == if text.len() == 0 {
                0nat
            } else {
                1nat
            } && (tail.len() > 0 ==> (tail[0] matches RelayAction::Send(d) && d is Data))
        }),
        all_keyed(acts) == text + match one[0] {
            Escaped::Data(d) => d,
            _ => seq![],
        },
{
    reveal_with_fuel(relay::acts_on, 3);
    let events = escape::flushed(text) + one;
    assert(events.drop_last() =~= escape::flushed(text));
    assert(events.last() == one[0]);
    let flushed = escape::flushed(text);
    let tail = if one[0] is Reconnect {
        acts
    } else if one[0] is Status {
        acts.drop_last().drop_last()
    } else {
        acts.drop_last()
    };
    if text.len() > 0 {
        assert(flushed.drop_last() =~= Seq::<Escaped>::empty());
        assert(tail.drop_last().len() == 0);
        assert(tail[0] == tail.last());
        assert(tail.drop_last() =~= Seq::<RelayAction>::empty());
        assert(all_keyed(tail.drop_last()) == Seq::<u8>::empty());
    }
    assert(all_keyed(tail) =~= text);
    if one[0] is Status {
        let head = acts.drop_last();
        assert(head.last() == acts[acts.len() - 2]);
        assert(all_keyed(head) =~= text);
    }
    assert(all_keyed(acts) =~= text + match one[0] {
        Escaped::Data(d) => d,
        _ => seq![],
    });
}

/// What a server may ask of this machine only so often.
pub enum Gate {
    Url,
    Clipboard,
    Redirect,
    Agent,
}

/// How often it may ask within half a minute.
pub open spec fn gate_limit(g: Gate) -> nat {
    match g {
        Gate::Url => 2,
        Gate::Clipboard => 5,
        Gate::Redirect => 2,
        Gate::Agent => 10,
    }
}

/// When an event asks for this, if it does.
pub open spec fn asks_at(e: Event, g: Gate) -> Option<u64> {
    match e {
        Event::Server { frame, now } => if match g {
            Gate::Url => frame is OpenUrl,
            Gate::Clipboard => frame is ClipboardSet,
            Gate::Redirect => frame is TunnelListen,
            Gate::Agent => frame is AgentOpen,
        } {
            Some(now.mono)
        } else {
            None
        },
        _ => None,
    }
}

/// Whether the user has this switched on.
pub open spec fn switched_on(m: RelayModel, g: Gate) -> bool {
    match g {
        Gate::Url => m.forward_open,
        Gate::Clipboard => true,
        Gate::Redirect => m.oauth_redirect,
        Gate::Agent => m.agent_socket,
    }
}

/// What a relay remembers of earlier requests.
pub open spec fn memory(m: RelayModel, g: Gate) -> Seq<u64> {
    match g {
        Gate::Url => m.url,
        Gate::Clipboard => m.clipboard_set,
        Gate::Redirect => m.tunnel_listen,
        Gate::Agent => m.agent_open,
    }
}

/// How many of the requests in the first `k` turns were let through and lie at
/// most half a minute before `now`.
pub open spec fn let_through(run: Seq<Turn>, k: int, g: Gate, now: u64) -> nat
    decreases k, 0nat,
{
    if k <= 0 {
        0
    } else {
        let_through(run, k - 1, g, now) + match asks_at(run[k - 1].event, g) {
            Some(t) => if passes_gate(run, k - 1, g) && now - t <= 30000 {
                1nat
            } else {
                0nat
            },
            None => 0nat,
        }
    }
}

/// Whether the request in turn `k` is let through: it is switched on, and fewer
/// than the limit were let through in the half minute before.
pub open spec fn passes_gate(run: Seq<Turn>, k: int, g: Gate) -> bool
    decreases k, 1nat,
{
    &&& k >= 0
    &&& asks_at(run[k].event, g) matches Some(t) && let_through(run, k, g, t) < gate_limit(g)
    &&& switched_on(run[0].pre, g)
}

/// Whether the requests come in the order of time.
#[verifier::opaque]
pub open spec fn in_order(run: Seq<Turn>, g: Gate) -> bool {
    forall|i: int, j: int|
        #![trigger run[i], run[j]]
        0 <= i <= j < run.len() ==> (asks_at(run[i].event, g) matches Some(a) ==> asks_at(
            run[j].event,
            g,
        ) matches Some(b) ==> a <= b)
}

/// Whether all requests in the first `k` turns come no later than `now`.
#[verifier::opaque]
spec fn none_later(run: Seq<Turn>, k: int, g: Gate, now: u64) -> bool {
    forall|i: int|
        0 <= i < k ==> (asks_at((#[trigger] run[i]).event, g) matches Some(t) ==> t <= now)
}

proof fn lemma_none_later(run: Seq<Turn>, k: int, g: Gate)
    requires
        in_order(run, g),
        0 <= k < run.len(),
        asks_at(run[k].event, g) is Some,
    ensures
        none_later(run, k, g, asks_at(run[k].event, g)->0),
{
    reveal(in_order);
    reveal(none_later);
    let now = asks_at(run[k].event, g)->0;
    assert forall|i: int| 0 <= i < k implies (asks_at((#[trigger] run[i]).event, g) matches Some(t)
        ==> t <= now) by {
        assert(run[k].event == run[k].event);
    }
}

proof fn lemma_fewer_later(run: Seq<Turn>, k: int, g: Gate, now: u64)
    requires
        none_later(run, k, g, now),
        k > 0,
    ensures
        none_later(run, k - 1, g, now),
        asks_at(run[k - 1].event, g) matches Some(t) ==> t <= now,
{
    reveal(none_later);
}

/// One request, as the memory of a limit and as a count.
proof fn lemma_one_request(held: Seq<u64>, limit: nat, t: u64, now: u64)
    requires
        t <= now,
        forall|i: int| 0 <= i < held.len() ==> #[trigger] held[i] <= t,
    ensures
        ({
            let next = relay::charged(held, limit, t);
            &&& rate::still_counting(next, now, 30000).len() == rate::still_counting(
                held,
                now,
                30000,
            ).len() + (if rate::still_counting(held, t, 30000).len() < limit && now - t <= 30000 {
                1nat
            } else {
                0nat
            })
            &&& forall|i: int| 0 <= i < next.len() ==> #[trigger] next[i] <= t
        }),
{
    let kept = rate::still_counting(held, t, 30000);
    rate::lemma_expired(held, t, 30000);
    rate::lemma_counting_twice(held, t, now, 30000);
    assert forall|i: int| 0 <= i < kept.len() implies #[trigger] kept[i] <= t by {
        assert(kept[i] == held[i + rate::expired(held, t, 30000)]);
    }
    if kept.len() < limit {
        rate::lemma_counting_push(kept, t, now, 30000);
    }
}

proof fn lemma_turn_gate(t: Turn, g: Gate)
    requires
        is_turn(t),
    ensures
        switched_on(t.post, g) == switched_on(t.pre, g),
        memory(t.post, g) == match asks_at(t.event, g) {
            Some(now) => if switched_on(t.pre, g) {
                relay::charged(memory(t.pre, g), gate_limit(g), now)
            } else {
                memory(t.pre, g)
            },
            None => memory(t.pre, g),
        },
{
    reveal(is_turn);
}

proof fn lemma_switches(run: Seq<Turn>, k: int, g: Gate)
    requires
        is_run(run),
        run.len() > 0,
        0 <= k <= run.len(),
    ensures
        switched_on(state_at(run, k), g) == switched_on(run[0].pre, g),
    decreases k,
{
    if k > 0 {
        lemma_switches(run, k - 1, g);
        lemma_chain(run, k);
        lemma_turn_gate(run[k - 1], g);
    }
}

proof fn lemma_gate(run: Seq<Turn>, k: int, g: Gate, now: u64)
    requires
        is_run(run),
        run.len() > 0,
        0 <= k <= run.len(),
        memory(run[0].pre, g).len() == 0,
        in_order(run, g),
        none_later(run, k, g, now),
    ensures
        rate::still_counting(memory(state_at(run, k), g), now, 30000).len() == let_through(
            run,
            k,
            g,
            now,
        ),
        all_at_most(memory(state_at(run, k), g), now),
    decreases k,
{
    reveal(all_at_most);
    if k == 0 {
        rate::lemma_expired(memory(run[0].pre, g), now, 30000);
    } else {
        lemma_fewer_later(run, k, g, now);
        lemma_gate(run, k - 1, g, now);
        lemma_chain(run, k);
        lemma_turn_gate(run[k - 1], g);
        lemma_switches(run, k - 1, g);
        lemma_let_through(run, k, g, now);
        if let Some(t) = asks_at(run[k - 1].event, g) {
            lemma_passes_gate(run, k - 1, g);
            lemma_none_later(run, k - 1, g);
            lemma_gate(run, k - 1, g, t);
            lemma_one_request(memory(run[k - 1].pre, g), gate_limit(g), t, now);
        }
    }
}

proof fn lemma_passes_gate(run: Seq<Turn>, k: int, g: Gate)
    requires
        k >= 0,
        asks_at(run[k].event, g) is Some,
    ensures
        passes_gate(run, k, g) == (switched_on(run[0].pre, g) && let_through(
            run,
            k,
            g,
            asks_at(run[k].event, g)->0,
        ) < gate_limit(g)),
{
    reveal_with_fuel(passes_gate, 2);
    reveal_with_fuel(let_through, 2);
}

proof fn lemma_let_through(run: Seq<Turn>, k: int, g: Gate, now: u64)
    requires
        k > 0,
    ensures
        let_through(run, k, g, now) == let_through(run, k - 1, g, now) + match asks_at(
            run[k - 1].event,
            g,
        ) {
            Some(t) => if passes_gate(run, k - 1, g) && now - t <= 30000 {
                1nat
            } else {
                0nat
            },
            None => 0nat,
        },
{
    reveal_with_fuel(let_through, 2);
}

#[verifier::opaque]
spec fn all_at_most(s: Seq<u64>, now: u64) -> bool {
    forall|i: int| 0 <= i < s.len() ==> #[trigger] s[i] <= now
}

/// What a server asks of this machine is done, but only where it is switched on
/// and only so often in any half minute: addresses open in the browser, data
/// goes on the clipboard, sign-in redirects are caught and the agent is
/// connected, each with exactly what the server named. Everything beyond is
/// refused.
pub proof fn law_requests_are_met_within_limits(run: Seq<Turn>, k: int, g: Gate)
    requires
        is_run(run),
        0 <= k < run.len(),
        memory(run[0].pre, g).len() == 0,
        in_order(run, g),
        asks_at(run[k].event, g) is Some,
    ensures
        ({
            let ok = passes_gate(run, k, g);
            let acts = run[k].acts;
            match run[k].event {
                Event::Server { frame: Frame::OpenUrl { url }, now } => acts == if ok && (
                "http://"@.is_prefix_of(url@) || "https://"@.is_prefix_of(url@)) {
                    seq![RelayAction::OpenUrl(url)]
                } else {
                    seq![]
                },
                Event::Server { frame: Frame::ClipboardSet { data }, now } => acts == if ok {
                    seq![RelayAction::SetClipboard(data)]
                } else {
                    seq![]
                },
                Event::Server { frame: Frame::TunnelListen { port }, now } => acts == if ok {
                    seq![RelayAction::StopTunnelListener, RelayAction::BindTunnel { port }]
                } else {
                    seq![RelayAction::Notify(Frame::TunnelClose { channel_id: 0 })]
                },
                Event::Server { frame: Frame::AgentOpen { channel_id }, now } => acts == if ok {
                    seq![RelayAction::ConnectAgent { channel_id }]
                } else {
                    seq![RelayAction::Notify(Frame::AgentClose { channel_id })]
                },
                _ => true,
            }
        }),
{
    let t = asks_at(run[k].event, g)->0;
    lemma_chain(run, k + 1);
    lemma_none_later(run, k, g);
    lemma_gate(run, k, g, t);
    lemma_switches(run, k, g);
    lemma_passes_gate(run, k, g);
    lemma_turn_meets(run[k], g);
    assert(passes_gate(run, k, g) == (switched_on(run[k].pre, g) && rate::still_counting(
        memory(run[k].pre, g),
        t,
        30000,
    ).len() < gate_limit(g)));
}

proof fn lemma_turn_meets(t: Turn, g: Gate)
    requires
        is_turn(t),
        asks_at(t.event, g) is Some,
    ensures
        ({
            let ok = switched_on(t.pre, g) && rate::still_counting(
                memory(t.pre, g),
                asks_at(t.event, g)->0,
                30000,
            ).len() < gate_limit(g);
            match t.event {
                Event::Server { frame: Frame::OpenUrl { url }, now } => t.acts == if ok && (
                "http://"@.is_prefix_of(url@) || "https://"@.is_prefix_of(url@)) {
                    seq![RelayAction::OpenUrl(url)]
                } else {
                    seq![]
                },
                Event::Server { frame: Frame::ClipboardSet { data }, now } => t.acts == if ok {
                    seq![RelayAction::SetClipboard(data)]
                } else {
                    seq![]
                },
                Event::Server { frame: Frame::TunnelListen { port }, now } => t.acts == if ok {
                    seq![RelayAction::StopTunnelListener, RelayAction::BindTunnel { port }]
                } else {
                    seq![RelayAction::Notify(Frame::TunnelClose { channel_id: 0 })]
                },
                Event::Server { frame: Frame::AgentOpen { channel_id }, now } => t.acts == if ok {
                    seq![RelayAction::ConnectAgent { channel_id }]
                } else {
                    seq![RelayAction::Notify(Frame::AgentClose { channel_id })]
                },
                _ => true,
            }
        }),
{
    reveal(is_turn);
}

/// After a suspension the server is told the size of the terminal, and after a
/// change of the network the link is probed at once; neither ends the relay.
pub proof fn law_changes_are_told_at_once(run: Seq<Turn>, k: int)
    requires
        is_run(run),
        0 <= k < run.len(),
    ensures
        run[k].event matches Event::Resumed { cols, rows, now } ==> run[k].exit is None
            && run[k].acts == seq![RelayAction::Send(Frame::Resize { cols, rows })],
        run[k].event matches Event::NetworkChanged { now } ==> run[k].exit is None && run[k].acts
            == seq![RelayAction::Send(Frame::Ping)],
{
    lemma_chain(run, k + 1);
    reveal(is_turn);
}

/// All output in the first `k` turns.
pub open spec fn output_until(run: Seq<Turn>, k: int) -> Seq<u8>
    decreases k,
{
    if k <= 0 {
        seq![]
    } else {
        output_until(run, k - 1) + output_of(run[k - 1].event)
    }
}

/// How many bytes the session itself printed in the first `k` turns.
pub open spec fn printed_until(run: Seq<Turn>, k: int) -> nat
    decreases k,
{
    if k <= 0 {
        0
    } else {
        match run[k - 1].event {
            Event::Server { frame: Frame::Data(d), now } => printed_until(run, k - 1) + d@.len(),
            _ => printed_until(run, k - 1),
        }
    }
}

/// When the link was last probed in the first `k` turns.
pub open spec fn probed_at(run: Seq<Turn>, k: int) -> u64
    decreases k,
{
    if k <= 0 {
        run[0].pre.last_ping
    } else {
        match run[k - 1].event {
            Event::NetworkChanged { now } => now.micros,
            Event::Heartbeat { hb_interval, hb_timeout, now } => if run[k - 1].acts.len() > 0 {
                now.micros
            } else {
                probed_at(run, k - 1)
            },
            _ => probed_at(run, k - 1),
        }
    }
}

proof fn lemma_turn_screen(t: Turn)
    requires
        is_turn(t),
    ensures
        t.post.screen == alt_screen::scan_bytes(t.pre.screen, output_of(t.event)),
        t.post.bytes_relayed == t.pre.bytes_relayed + match t.event {
            Event::Server { frame: Frame::Data(d), now } => d@.len(),
            _ => 0,
        },
{
    reveal(is_turn);
    reveal(output_of);
    assert(alt_screen::scan_bytes(t.pre.screen, seq![]) == t.pre.screen);
}

proof fn lemma_turn_probes(t: Turn)
    requires
        is_turn(t),
    ensures
        t.post.last_ping == match t.event {
            Event::NetworkChanged { now } => now.micros,
            Event::Heartbeat { hb_interval, hb_timeout, now } => if t.acts.len() > 0 {
                now.micros
            } else {
                t.pre.last_ping
            },
            _ => t.pre.last_ping,
        },
        t.post.last_rtt == match t.event {
            Event::Server { frame: Frame::Pong, now } => Some(
                chrome::wall_between(t.pre.last_ping, now.micros),
            ),
            _ => t.pre.last_rtt,
        },
{
    reveal(is_turn);
}

/// The relay knows what the screen shows by all the output that reached it, and
/// counts every byte that the session printed.
pub proof fn law_the_screen_is_followed(run: Seq<Turn>, k: int)
    requires
        is_run(run),
        run.len() > 0,
        0 <= k <= run.len(),
    ensures
        state_at(run, k).screen == alt_screen::scan_bytes(run[0].pre.screen, output_until(run, k)),
        state_at(run, k).bytes_relayed == run[0].pre.bytes_relayed + printed_until(run, k),
    decreases k,
{
    if k > 0 {
        law_the_screen_is_followed(run, k - 1);
        lemma_chain(run, k);
        lemma_turn_screen(run[k - 1]);
        alt_screen::law_scan_chunks(
            run[0].pre.screen,
            output_until(run, k - 1),
            output_of(run[k - 1].event),
        );
    } else {
        assert(alt_screen::scan_bytes(run[0].pre.screen, seq![]) == run[0].pre.screen);
    }
}

proof fn lemma_probes(run: Seq<Turn>, k: int)
    requires
        is_run(run),
        run.len() > 0,
        0 <= k <= run.len(),
    ensures
        state_at(run, k).last_ping == probed_at(run, k),
    decreases k,
{
    if k > 0 {
        lemma_probes(run, k - 1);
        lemma_chain(run, k);
        lemma_turn_probes(run[k - 1]);
    }
}

/// The time of a round trip is the time from the last probe to the answer, and
/// nothing but an answer sets it.
pub proof fn law_round_trips_are_measured(run: Seq<Turn>, k: int)
    requires
        is_run(run),
        0 <= k < run.len(),
    ensures
        run[k].event matches Event::Server { frame: Frame::Pong, now } ==> run[k].post.last_rtt
            == Some(
            if now.micros >= probed_at(run, k) {
                (now.micros - probed_at(run, k)) as u64
            } else {
                0
            },
        ),
        !(run[k].event matches Event::Server { frame: Frame::Pong, .. }) ==> run[k].post.last_rtt
            == run[k].pre.last_rtt,
{
    lemma_probes(run, k);
    lemma_chain(run, k + 1);
    lemma_turn_probes(run[k]);
}

/// The end of a transfer is told to the user, with the reason where it was
/// cancelled, and ends nothing else.
pub proof fn law_transfers_are_told_of(run: Seq<Turn>, k: int)
    requires
        is_run(run),
        0 <= k < run.len(),
    ensures
        run[k].event matches Event::Server { frame: Frame::SendCancel { reason }, now } ==> {
            &&& run[k].exit is None && run[k].acts.len() == 1
            &&& run[k].acts[0] matches RelayAction::Print(s) && exists|i: int| #[trigger]
                text::occurs_at(s@, reason@, i)
        },
        run[k].event matches Event::Server { frame: Frame::SendDone, now } ==> run[k].exit is None
            && run[k].acts.len() == 1 && run[k].acts[0] is Print,
        run[k].event matches Event::Server { frame: Frame::SendOffer { .. }, now } ==> run[k].exit
            is None && run[k].acts.len() == 1 && run[k].acts[0] is Print,
{
    lemma_chain(run, k + 1);
    reveal(is_turn);
    if let Event::Server { frame: Frame::SendCancel { reason }, now } = run[k].event {
        if let RelayAction::Print(s) = run[k].acts[0] {
            let lead = "\r\n\x1b[31m\u{25b8} "@;
            let words = "transfer cancelled: "@;
            let at = (lead.len() + words.len()) as int;
            assert(s@ == lead + (words + reason@) + "\x1b[0m\r\n"@);
            assert(s@.subrange(at, at + reason@.len()) =~= reason@);
            assert(text::occurs_at(s@, reason@, at));
        }
    }
}

} // verus!
