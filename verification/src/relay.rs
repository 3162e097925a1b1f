//! The relay between a terminal and its session: what each message from the
//! server, each local connection and each tick of the heartbeat leads to. The
//! program around it performs the actions and hands the outcomes back.

use vstd::prelude::*;
use crate::alt_screen;
use crate::alt_screen::{AltScreenTracker, Screen};
use crate::chrome;
use crate::chrome::{error_msg, format_size, link_is_stale, reconnect_err_line, status_msg, success_msg, uptime_text, wall_elapsed};
use crate::outside;
use crate::protocol::Frame;
use crate::rate;
use crate::rate::{SecurityLimiters, SECURITY_WINDOW_MS};
use crate::table;
use crate::table::Table;
use crate::text;
use crate::text::{cat2, cat3, cat5, copy, decimal_text, lines_of, starts_with};

verus! {

/// The channel that stands for a refused `TunnelListen`. Accepted connections
/// are numbered from the next one on.
pub const TUNNEL_DECLINE_CHANNEL: u32 = 0;

/// How a relay ends.
#[derive(Debug, Clone, Copy, PartialEq, Eq, Structural)]
pub enum RelayExit {
    /// The shell or the server reported an exit code, or the user left.
    Exit(i32),
    /// The link is down: reconnect.
    Disconnected,
}

/// Something for the program to do.
pub enum RelayAction {
    /// Bytes for the terminal.
    Write(Vec<u8>),
    /// Text for the terminal.
    Print(String),
    /// A message that must get through: if it does not, the link is down.
    Send(Frame),
    /// A message whose loss is not fatal by itself.
    Notify(Frame),
    /// Connect to the local agent on behalf of a channel.
    ConnectAgent { channel_id: u32 },
    /// Hand data to an agent connection.
    DeliverAgent { channel_id: u32, data: Vec<u8> },
    /// Close an agent connection.
    DropAgent { channel_id: u32 },
    /// Open an address in the browser.
    OpenUrl(String),
    /// Put data on the clipboard.
    SetClipboard(Vec<u8>),
    /// Stop accepting tunnel connections.
    StopTunnelListener,
    /// Listen for tunnel connections on a local port.
    BindTunnel { port: u16 },
    /// Hand data to a tunnel connection.
    DeliverTunnel { channel_id: u32, data: Vec<u8> },
    /// Close a tunnel connection.
    DropTunnel { channel_id: u32 },
    /// Connect a forwarded channel to a local port.
    ConnectForward { forward_id: u32, channel_id: u32, port: u16 },
    /// Hand data to a forwarded connection.
    DeliverForward { channel_id: u32, data: Vec<u8> },
    /// Close a forwarded connection.
    DropForwardChannel { channel_id: u32 },
    /// Close every connection of a forward.
    DropForwardChannels { forward_id: u32 },
    /// Answer the command that asked for a forward.
    ReplyForward { forward_id: u32, reply: Vec<u8> },
    /// Watch the command that asked for a forward until it goes away.
    StartKeepalive { forward_id: u32 },
    /// Stop listening for a forward and watching its command.
    StopForward { forward_id: u32 },
    /// Close everything that was opened for the session.
    Teardown,
    /// Suspend the client, then report that it resumed.
    Suspend,
}

/// What a step asks for, in order, and whether the relay ends after it.
pub struct RelayStep {
    pub actions: Vec<RelayAction>,
    pub exit: Option<RelayExit>,
}

/// A reading of both clocks, in milliseconds: `wall` goes on while the machine
/// sleeps, `mono` never goes backward. `micros` is `mono` in microseconds.
#[derive(Debug, Clone, Copy)]
pub struct Now {
    pub wall: u64,
    pub mono: u64,
    pub micros: u64,
}

/// The state of a relay.
pub struct Relay {
    pub screen: AltScreenTracker,
    pub agent_socket: bool,
    pub oauth_redirect: bool,
    pub forward_open: bool,
    pub agent: Table<()>,
    pub tunnel: Table<()>,
    pub tunnel_listening: bool,
    pub next_tunnel_id: u32,
    pub forwards: Table<u16>,
    pub channels: Table<u32>,
    pub pending: Table<()>,
    pub initiated: Table<u16>,
    pub next_channel_id: u32,
    pub bytes_relayed: u64,
    pub rendered_offset: u64,
    pub last_activity: u64,
    pub last_outbound: u64,
    /// When the link was last probed, in microseconds.
    pub last_ping: u64,
    /// The last round trip, in microseconds.
    pub last_rtt: Option<u64>,
    pub limiters: SecurityLimiters,
}

/// The state of a relay as a mathematical value.
#[verifier::ext_equal]
pub struct RelayModel {
    pub screen: Screen,
    pub agent_socket: bool,
    pub oauth_redirect: bool,
    pub forward_open: bool,
    pub agent: Map<u32, ()>,
    pub tunnel: Map<u32, ()>,
    pub tunnel_listening: bool,
    pub next_tunnel_id: u32,
    /// Target port of each forward.
    pub forwards: Map<u32, u16>,
    /// Forward of each channel.
    pub channels: Map<u32, u32>,
    pub pending: Map<u32, ()>,
    /// Target port of each forward that this client asked the server for.
    pub initiated: Map<u32, u16>,
    pub next_channel_id: u32,
    pub bytes_relayed: u64,
    pub rendered_offset: u64,
    pub last_activity: u64,
    pub last_outbound: u64,
    pub last_ping: u64,
    pub last_rtt: Option<u64>,
    pub url: Seq<u64>,
    pub clipboard_set: Seq<u64>,
    pub tunnel_listen: Seq<u64>,
    pub agent_open: Seq<u64>,
}

impl View for Relay {
    type V = RelayModel;

    open spec fn view(&self) -> RelayModel {
        RelayModel {
            screen: self.screen@,
            agent_socket: self.agent_socket,
            oauth_redirect: self.oauth_redirect,
            forward_open: self.forward_open,
            agent: self.agent@,
            tunnel: self.tunnel@,
            tunnel_listening: self.tunnel_listening,
            next_tunnel_id: self.next_tunnel_id,
            forwards: self.forwards@,
            channels: self.channels@,
            pending: self.pending@,
            initiated: self.initiated@,
            next_channel_id: self.next_channel_id,
            bytes_relayed: self.bytes_relayed,
            rendered_offset: self.rendered_offset,
            last_activity: self.last_activity,
            last_outbound: self.last_outbound,
            last_ping: self.last_ping,
            last_rtt: self.last_rtt,
            url: self.limiters.url@,
            clipboard_set: self.limiters.clipboard_set@,
            tunnel_listen: self.limiters.tunnel_listen@,
            agent_open: self.limiters.agent_open@,
        }
    }
}

pub open spec fn limits_ok(l: SecurityLimiters) -> bool {
    &&& l.url.max() == 2 && l.url.span() == SECURITY_WINDOW_MS
    &&& l.clipboard_set.max() == 5 && l.clipboard_set.span() == SECURITY_WINDOW_MS
    &&& l.tunnel_listen.max() == 2 && l.tunnel_listen.span() == SECURITY_WINDOW_MS
    &&& l.agent_open.max() == 10 && l.agent_open.span() == SECURITY_WINDOW_MS
}

/// Whether a limit of `max` in the security window lets a request through.
pub open spec fn allowed(held: Seq<u64>, max: nat, now: u64) -> bool {
    rate::still_counting(held, now, SECURITY_WINDOW_MS).len() < max
}

/// What the limit remembers afterwards.
pub open spec fn charged(held: Seq<u64>, max: nat, now: u64) -> Seq<u64> {
    let kept = rate::still_counting(held, now, SECURITY_WINDOW_MS);
    if kept.len() < max {
        kept.push(now)
    } else {
        kept
    }
}

/// Whether the only action prints `s`.
pub open spec fn prints(acts: Seq<RelayAction>, s: Seq<char>) -> bool {
    acts.len() == 1 && (acts[0] matches RelayAction::Print(t) && t@ == s)
}

/// Whether an action answers the command behind forward `id` with `reply`.
pub open spec fn replies(a: RelayAction, id: u32, reply: Seq<u8>) -> bool {
    a matches RelayAction::ReplyForward { forward_id, reply: r } && forward_id == id && r@ == reply
}

/// What leaves the alternate screen, so that a message stays visible.
pub open spec fn leave_alt() -> Seq<char> {
    "\x1b[?1049l"@
}

/// Whether an address may be opened in the browser.
pub open spec fn is_web_url(url: Seq<char>) -> bool {
    "http://"@.is_prefix_of(url) || "https://"@.is_prefix_of(url)
}

pub open spec fn offer_text(file_count: u32, total_bytes: u64) -> Seq<char> {
    "receiving "@ + text::decimal(file_count as nat) + (if file_count == 1 {
        " file ("@
    } else {
        " files ("@
    }) + outside::human_size(total_bytes) + ")"@
}

/// Diagnostics from the server, each line dimmed.
pub open spec fn diag_lines(lines: Seq<Seq<char>>) -> Seq<char>
    decreases lines.len(),
{
    if lines.len() == 0 {
        "\r\n\x1b[2;33m[server diagnostics]\r\n"@
    } else {
        diag_lines(lines.drop_last()) + "\x1b[0m\x1b[2m"@ + lines.last() + "\r\n"@
    }
}

/// Everything that was opened for the session is closed.
pub open spec fn torn_down(m: RelayModel) -> RelayModel {
    RelayModel {
        agent: Map::empty(),
        tunnel: Map::empty(),
        tunnel_listening: false,
        forwards: Map::empty(),
        channels: Map::empty(),
        pending: Map::empty(),
        ..m
    }
}

/// The forward `id` has an entry, with the port `port` if it is new.
pub open spec fn with_forward(m: RelayModel, id: u32, port: u16) -> RelayModel {
    RelayModel {
        forwards: if m.forwards.contains_key(id) {
            m.forwards
        } else {
            m.forwards.insert(id, port)
        },
        ..m
    }
}

/// The forward `id` and all that belongs to it is gone.
pub open spec fn without_forward(m: RelayModel, id: u32) -> RelayModel {
    RelayModel {
        forwards: m.forwards.remove(id),
        channels: table::without_value(m.channels, id),
        initiated: m.initiated.remove(id),
        ..m
    }
}

/// The port that this client wants a forward to lead to.
pub open spec fn wanted_port(m: RelayModel, id: u32) -> u16 {
    if m.initiated.contains_key(id) {
        m.initiated[id]
    } else {
        0
    }
}

/// What one message from the server does: the state after it, the actions and
/// the end, if it is one. `pre` already counts the message as a sign of life.
pub open spec fn frame_effect(
    pre: RelayModel,
    frame: Frame,
    now: Now,
    post: RelayModel,
    acts: Seq<RelayAction>,
    exit: Option<RelayExit>,
) -> bool {
    match frame {
        Frame::Data(d) => {
            &&& post == RelayModel {
                screen: alt_screen::scan_bytes(pre.screen, d@),
                bytes_relayed: (pre.bytes_relayed + d@.len()) as u64,
                rendered_offset: (pre.rendered_offset + d@.len()) as u64,
                ..pre
            }
            &&& acts == seq![RelayAction::Write(d)]
            &&& exit is None
        },
        Frame::Notice(d) => {
            &&& post == RelayModel { screen: alt_screen::scan_bytes(pre.screen, d@), ..pre }
            &&& acts == seq![RelayAction::Write(d)]
            &&& exit is None
        },
        Frame::Resume { offset } => {
            &&& post == RelayModel { rendered_offset: offset, ..pre }
            &&& acts.len() == 0
            &&& exit is None
        },
        Frame::Pong => {
            &&& post == RelayModel {
                last_rtt: Some(chrome::wall_between(pre.last_ping, now.micros)),
                ..pre
            }
            &&& acts.len() == 0
            &&& exit is None
        },
        Frame::Exit { code } => {
            &&& post == pre
            &&& acts.len() == 0
            &&& exit == Some(RelayExit::Exit(code))
        },
        Frame::Detached => {
            &&& post == torn_down(pre)
            &&& acts.len() == 2 && acts[0] == RelayAction::Teardown
            &&& prints(acts.skip(1), leave_alt() + chrome::status_banner("detached"@))
            &&& exit == Some(RelayExit::Exit(0))
        },
        Frame::ServerShutdown => {
            &&& post == torn_down(pre)
            &&& acts.len() == 2 && acts[0] == RelayAction::Teardown
            &&& prints(
                acts.skip(1),
                leave_alt() + chrome::err_line(
                    "server shut down -- session is gone; run `gritty connect` to start fresh"@,
                ),
            )
            &&& exit == Some(RelayExit::Exit(1))
        },
        Frame::AgentOpen { channel_id } => {
            &&& post == RelayModel {
                agent_open: if pre.agent_socket {
                    charged(pre.agent_open, 10, now.mono)
                } else {
                    pre.agent_open
                },
                ..pre
            }
            &&& acts == if pre.agent_socket && allowed(pre.agent_open, 10, now.mono) {
                seq![RelayAction::ConnectAgent { channel_id }]
            } else {
                seq![RelayAction::Notify(Frame::AgentClose { channel_id })]
            }
            &&& exit is None
        },
        Frame::AgentData { channel_id, data } => {
            &&& post == pre
            &&& acts == if pre.agent.contains_key(channel_id) {
                seq![RelayAction::DeliverAgent { channel_id, data }]
            } else {
                seq![]
            }
            &&& exit is None
        },
        Frame::AgentClose { channel_id } => {
            &&& post == RelayModel { agent: pre.agent.remove(channel_id), ..pre }
            &&& acts == if pre.agent.contains_key(channel_id) {
                seq![RelayAction::DropAgent { channel_id }]
            } else {
                seq![]
            }
            &&& exit is None
        },
        Frame::OpenUrl { url } => {
            &&& post == RelayModel {
                url: if pre.forward_open {
                    charged(pre.url, 2, now.mono)
                } else {
                    pre.url
                },
                ..pre
            }
            &&& acts == if pre.forward_open && allowed(pre.url, 2, now.mono) && is_web_url(url@) {
                seq![RelayAction::OpenUrl(url)]
            } else {
                seq![]
            }
            &&& exit is None
        },
        Frame::ClipboardSet { data } => {
            &&& post == RelayModel {
                clipboard_set: charged(pre.clipboard_set, 5, now.mono),
                ..pre
            }
            &&& acts == if allowed(pre.clipboard_set, 5, now.mono) {
                seq![RelayAction::SetClipboard(data)]
            } else {
                seq![]
            }
            &&& exit is None
        },
        Frame::ClipboardGet => {
            &&& post == pre
            &&& acts.len() == 1 && (acts[0] matches RelayAction::Notify(Frame::ClipboardData { data })
                && data@.len() == 0)
            &&& exit is None
        },
        Frame::TunnelListen { port } => {
            let ok = pre.oauth_redirect && allowed(pre.tunnel_listen, 2, now.mono);
            &&& post == RelayModel {
                tunnel_listen: if pre.oauth_redirect {
                    charged(pre.tunnel_listen, 2, now.mono)
                } else {
                    pre.tunnel_listen
                },
                tunnel_listening: if ok {
                    false
                } else {
                    pre.tunnel_listening
                },
                ..pre
            }
            &&& acts == if ok {
                seq![RelayAction::StopTunnelListener, RelayAction::BindTunnel { port }]
            } else {
                seq![
                    RelayAction::Notify(
                        Frame::TunnelClose { channel_id: TUNNEL_DECLINE_CHANNEL },
                    ),
                ]
            }
            &&& exit is None
        },
        Frame::SendOffer { file_count, total_bytes } => {
            &&& post == pre
            &&& prints(acts, chrome::status_banner(offer_text(file_count, total_bytes)))
            &&& exit is None
        },
        Frame::SendDone => {
            &&& post == pre
            &&& prints(acts, chrome::success_banner("transfer complete"@))
            &&& exit is None
        },
        Frame::SendCancel { reason } => {
            &&& post == pre
            &&& prints(acts, chrome::error_banner("transfer cancelled: "@ + reason@))
            &&& exit is None
        },
        Frame::TunnelData { channel_id, data } => {
            &&& post == pre
            &&& acts == if pre.tunnel.contains_key(channel_id) {
                seq![RelayAction::DeliverTunnel { channel_id, data }]
            } else {
                seq![]
            }
            &&& exit is None
        },
        Frame::TunnelClose { channel_id } => {
            &&& post == RelayModel { tunnel: pre.tunnel.remove(channel_id), ..pre }
            &&& acts == if pre.tunnel.contains_key(channel_id) {
                seq![RelayAction::DropTunnel { channel_id }]
            } else {
                seq![]
            }
            &&& exit is None
        },
        Frame::PortForwardListen { forward_id, listen_port, target_port } => {
            &&& post == pre
            &&& acts == seq![RelayAction::Notify(Frame::PortForwardStop { forward_id })]
            &&& exit is None
        },
        Frame::PortForwardOpen { forward_id, channel_id, target_port } => {
            &&& post == pre
            &&& acts == if pre.initiated.contains_key(forward_id) {
                seq![
                    RelayAction::ConnectForward {
                        forward_id,
                        channel_id,
                        port: pre.initiated[forward_id],
                    },
                ]
            } else {
                seq![RelayAction::Notify(Frame::PortForwardClose { channel_id })]
            }
            &&& exit is None
        },
        Frame::PortForwardData { channel_id, data } => {
            &&& post == pre
            &&& acts == if pre.channels.contains_key(channel_id) {
                seq![RelayAction::DeliverForward { channel_id, data }]
            } else {
                seq![]
            }
            &&& exit is None
        },
        Frame::PortForwardClose { channel_id } => {
            &&& post == RelayModel { channels: pre.channels.remove(channel_id), ..pre }
            &&& acts == if pre.channels.contains_key(channel_id) {
                seq![RelayAction::DropForwardChannel { channel_id }]
            } else {
                seq![]
            }
            &&& exit is None
        },
        Frame::PortForwardReady { forward_id } => {
            &&& exit is None
            &&& if pre.pending.contains_key(forward_id) {
                &&& post == with_forward(
                    RelayModel { pending: pre.pending.remove(forward_id), ..pre },
                    forward_id,
                    wanted_port(pre, forward_id),
                )
                &&& acts.len() == 2 && replies(acts[0], forward_id, seq![1u8])
                &&& acts[1] == RelayAction::StartKeepalive { forward_id }
            } else {
                post == pre && acts.len() == 0
            }
        },
        Frame::PortForwardStop { forward_id } => {
            let waiting = pre.pending.contains_key(forward_id);
            let known = pre.forwards.contains_key(forward_id);
            let rest = if known {
                seq![
                    RelayAction::StopForward { forward_id },
                    RelayAction::DropForwardChannels { forward_id },
                ]
            } else {
                seq![RelayAction::DropForwardChannels { forward_id }]
            };
            &&& post == without_forward(
                RelayModel { pending: pre.pending.remove(forward_id), ..pre },
                forward_id,
            )
            &&& exit is None
            &&& if waiting {
                acts.len() == 1 + rest.len() && replies(
                    acts[0],
                    forward_id,
                    seq![2u8] + server_bind_failed(),
                ) && acts.skip(1) == rest
            } else {
                acts == rest
            }
        },
        Frame::DiagResponse { text } => {
            &&& post == pre
            &&& prints(acts, diag_lines(text::lines(text@)) + "\x1b[0m"@)
            &&& exit is None
        },
        _ => {
            &&& post == pre
            &&& acts.len() == 0
            &&& exit is None
        },
    }
}

/// `server bind failed`, as bytes.
pub open spec fn server_bind_failed() -> Seq<u8> {
    seq![
        0x73u8, 0x65u8, 0x72u8, 0x76u8, 0x65u8, 0x72u8, 0x20u8, 0x62u8, 0x69u8, 0x6eu8, 0x64u8,
        0x20u8, 0x66u8, 0x61u8, 0x69u8, 0x6cu8, 0x65u8, 0x64u8,
    ]
}

fn nothing() -> (s: RelayStep)
    ensures
        s.actions@ == Seq::<RelayAction>::empty(),
        s.exit is None,
{
    RelayStep { actions: Vec::new(), exit: None }
}

fn one(a: RelayAction) -> (s: RelayStep)
    ensures
        s.actions@ == seq![a],
        s.exit is None,
{
    let mut actions: Vec<RelayAction> = Vec::new();
    actions.push(a);
    assert(actions@ == seq![a]);
    RelayStep { actions, exit: None }
}

fn print(s: String) -> (r: RelayStep)
    ensures
        prints(r.actions@, s@),
        r.exit is None,
{
    one(RelayAction::Print(s))
}

fn diag_text(text: &str) -> (r: String)
    ensures
        r@ == diag_lines(text::lines(text@)) + "\x1b[0m"@,
{
    let lines = lines_of(text);
    let mut r = copy("\r\n\x1b[2;33m[server diagnostics]\r\n");
    let ghost all = text::views(lines@);
    let mut i: usize = 0;
    assert(all.take(0) == Seq::<Seq<char>>::empty());
    while i < lines.len()
        invariant
            i <= lines.len(),
            all == text::views(lines@),
            r@ == diag_lines(all.take(i as int)),
        decreases lines.len() - i,
    {
        proof {
            assert(all.take(i + 1).drop_last() == all.take(i as int));
            assert(all.take(i + 1).last() == lines@[i as int]@);
        }
        r.append("\x1b[0m\x1b[2m");
        r.append(lines[i].as_str());
        r.append("\r\n");
        i = i + 1;
    }
    assert(all.take(all.len() as int) == all);
    r.append("\x1b[0m");
    r
}

impl Relay {
    pub open spec fn wf(&self) -> bool {
        limits_ok(self.limiters)
    }

    /// Close everything that was opened for the session.
    fn teardown(&mut self)
        requires
            old(self).wf(),
        ensures
            final(self).wf(),
            final(self)@ == torn_down(old(self)@),
    {
        self.agent.clear();
        self.tunnel.clear();
        self.tunnel_listening = false;
        self.forwards.clear();
        self.channels.clear();
        self.pending.clear();
    }

    /// Make sure that the forward has an entry.
    fn ensure_forward(&mut self, forward_id: u32, port: u16)
        requires
            old(self).wf(),
        ensures
            final(self).wf(),
            final(self)@ == with_forward(old(self)@, forward_id, port),
    {
        if !self.forwards.contains(forward_id) {
            self.forwards.insert(forward_id, port);
        }
    }

    /// Forget a forward; tells whether it was known.
    fn forget_forward(&mut self, forward_id: u32) -> (known: bool)
        requires
            old(self).wf(),
        ensures
            final(self).wf(),
            final(self)@ == without_forward(old(self)@, forward_id),
            known == old(self)@.forwards.contains_key(forward_id),
    {
        let known = self.forwards.remove(forward_id);
        self.channels.remove_value(forward_id);
        let _ = self.initiated.remove(forward_id);
        known
    }

    /// React to what the connection to the server delivered: a message, or
    /// `None` once it failed or was closed.
    pub fn handle_server_frame(&mut self, frame: Option<Frame>, now: Now) -> (step: RelayStep)
        requires
            old(self).wf(),
            frame matches Some(Frame::Data(d)) ==> old(self).bytes_relayed + d@.len() <= u64::MAX
                && old(self).rendered_offset + d@.len() <= u64::MAX,
        ensures
            final(self).wf(),
            server_effect(old(self)@, frame, now, final(self)@, step.actions@, step.exit),
    {
        let frame = match frame {
            None => {
                return RelayStep { actions: Vec::new(), exit: Some(RelayExit::Disconnected) };
            },
            Some(f) => f,
        };
        self.last_activity = now.wall;
        match frame {
            Frame::Data(d) => {
                self.bytes_relayed = self.bytes_relayed + d.len() as u64;
                self.rendered_offset = self.rendered_offset + d.len() as u64;
                self.screen.scan(d.as_slice());
                one(RelayAction::Write(d))
            },
            Frame::Notice(d) => {
                self.screen.scan(d.as_slice());
                one(RelayAction::Write(d))
            },
            Frame::Resume { offset } => {
                self.rendered_offset = offset;
                nothing()
            },
            Frame::Pong => {
                self.last_rtt = Some(wall_elapsed(self.last_ping, now.micros));
                nothing()
            },
            Frame::Exit { code } => RelayStep {
                actions: Vec::new(),
                exit: Some(RelayExit::Exit(code)),
            },
            Frame::Detached => {
                self.teardown();
                let msg = status_msg("detached");
                let mut actions: Vec<RelayAction> = Vec::new();
                actions.push(RelayAction::Teardown);
                actions.push(RelayAction::Print(cat2("\x1b[?1049l", msg.as_str())));
                RelayStep { actions, exit: Some(RelayExit::Exit(0)) }
            },
            Frame::ServerShutdown => {
                self.teardown();
                let msg = reconnect_err_line(
                    "server shut down -- session is gone; run `gritty connect` to start fresh",
                );
                let mut actions: Vec<RelayAction> = Vec::new();
                actions.push(RelayAction::Teardown);
                actions.push(RelayAction::Print(cat2("\x1b[?1049l", msg.as_str())));
                RelayStep { actions, exit: Some(RelayExit::Exit(1)) }
            },
            Frame::AgentOpen { channel_id } => {
                if self.agent_socket && self.limiters.agent_open.check(now.mono) {
                    one(RelayAction::ConnectAgent { channel_id })
                } else {
                    one(RelayAction::Notify(Frame::AgentClose { channel_id }))
                }
            },
            Frame::AgentData { channel_id, data } => {
                if self.agent.contains(channel_id) {
                    one(RelayAction::DeliverAgent { channel_id, data })
                } else {
                    nothing()
                }
            },
            Frame::AgentClose { channel_id } => {
                if self.agent.remove(channel_id) {
                    one(RelayAction::DropAgent { channel_id })
                } else {
                    nothing()
                }
            },
            Frame::OpenUrl { url } => {
                if self.forward_open && self.limiters.url.check(now.mono) && (starts_with(
                    url.as_str(),
                    "http://",
                ) || starts_with(url.as_str(), "https://")) {
                    one(RelayAction::OpenUrl(url))
                } else {
                    nothing()
                }
            },
            Frame::ClipboardSet { data } => {
                if self.limiters.clipboard_set.check(now.mono) {
                    one(RelayAction::SetClipboard(data))
                } else {
                    nothing()
                }
            },
            Frame::ClipboardGet => one(
                RelayAction::Notify(Frame::ClipboardData { data: Vec::new() }),
            ),
            Frame::TunnelListen { port } => {
                if self.oauth_redirect && self.limiters.tunnel_listen.check(now.mono) {
                    self.tunnel_listening = false;
                    let mut actions: Vec<RelayAction> = Vec::new();
                    actions.push(RelayAction::StopTunnelListener);
                    actions.push(RelayAction::BindTunnel { port });
                    assert(actions@ == seq![
                        RelayAction::StopTunnelListener,
                        RelayAction::BindTunnel { port },
                    ]);
                    RelayStep { actions, exit: None }
                } else {
                    one(
                        RelayAction::Notify(
                            Frame::TunnelClose { channel_id: TUNNEL_DECLINE_CHANNEL },
                        ),
                    )
                }
            },
            Frame::SendOffer { file_count, total_bytes } => {
                let n = decimal_text(file_count as u64);
                let size = format_size(total_bytes);
                let noun = if file_count == 1 {
                    " file ("
                } else {
                    " files ("
                };
                let body = cat5("receiving ", n.as_str(), noun, size.as_str(), ")");
                print(status_msg(body.as_str()))
            },
            Frame::SendDone => print(success_msg("transfer complete")),
            Frame::SendCancel { reason } => {
                let body = cat2("transfer cancelled: ", reason.as_str());
                print(error_msg(body.as_str()))
            },
            Frame::TunnelData { channel_id, data } => {
                if self.tunnel.contains(channel_id) {
                    one(RelayAction::DeliverTunnel { channel_id, data })
                } else {
                    nothing()
                }
            },
            Frame::TunnelClose { channel_id } => {
                if self.tunnel.remove(channel_id) {
                    one(RelayAction::DropTunnel { channel_id })
                } else {
                    nothing()
                }
            },
            Frame::PortForwardListen { forward_id, .. } => one(
                RelayAction::Notify(Frame::PortForwardStop { forward_id }),
            ),
            Frame::PortForwardOpen { forward_id, channel_id, .. } => {
                match self.initiated.get(forward_id) {
                    None => one(RelayAction::Notify(Frame::PortForwardClose { channel_id })),
                    Some(port) => one(
                        RelayAction::ConnectForward { forward_id, channel_id, port },
                    ),
                }
            },
            Frame::PortForwardData { channel_id, data } => {
                if self.channels.contains(channel_id) {
                    one(RelayAction::DeliverForward { channel_id, data })
                } else {
                    nothing()
                }
            },
            Frame::PortForwardClose { channel_id } => {
                if self.channels.remove(channel_id) {
                    one(RelayAction::DropForwardChannel { channel_id })
                } else {
                    nothing()
                }
            },
            Frame::PortForwardReady { forward_id } => {
                if self.pending.remove(forward_id) {
                    let port: u16 = match self.initiated.get(forward_id) {
                        Some(p) => p,
                        None => 0,
                    };
                    self.ensure_forward(forward_id, port);
                    let mut reply: Vec<u8> = Vec::new();
                    reply.push(1);
                    assert(reply@ == seq![1u8]);
                    let mut actions: Vec<RelayAction> = Vec::new();
                    actions.push(RelayAction::ReplyForward { forward_id, reply });
                    actions.push(RelayAction::StartKeepalive { forward_id });
                    RelayStep { actions, exit: None }
                } else {
                    assert(self@.pending == old(self)@.pending);
                    nothing()
                }
            },
            Frame::PortForwardStop { forward_id } => {
                let mut actions: Vec<RelayAction> = Vec::new();
                let waiting = self.pending.remove(forward_id);
                if waiting {
                    let reply = failure_reply("server bind failed");
                    proof {
                        lemma_server_bind_failed();
                    }
                    actions.push(RelayAction::ReplyForward { forward_id, reply });
                }
                let ghost head = actions@;
                if self.forget_forward(forward_id) {
                    actions.push(RelayAction::StopForward { forward_id });
                }
                actions.push(RelayAction::DropForwardChannels { forward_id });
                proof {
                    let known = old(self)@.forwards.contains_key(forward_id);
                    let rest = if known {
                        seq![
                            RelayAction::StopForward { forward_id },
                            RelayAction::DropForwardChannels { forward_id },
                        ]
                    } else {
                        seq![RelayAction::DropForwardChannels { forward_id }]
                    };
                    assert(actions@ == head + rest);
                    if waiting {
                        assert(actions@.skip(1) == rest);
                    } else {
                        assert(actions@ == rest);
                    }
                }
                RelayStep { actions, exit: None }
            },
            Frame::DiagResponse { text } => print(diag_text(text.as_str())),
            _ => nothing(),
        }
    }
}

/// The byte that says a forward failed, then the reason.
fn failure_reply(reason: &str) -> (r: Vec<u8>)
    ensures
        r@ == seq![2u8] + vstd::utf8::encode_utf8(reason@),
{
    let mut r: Vec<u8> = Vec::new();
    r.push(2);
    let mut rest = reason.as_bytes_vec();
    r.append(&mut rest);
    assert(r@ == seq![2u8] + vstd::utf8::encode_utf8(reason@));
    r
}

proof fn lemma_server_bind_failed()
    ensures
        vstd::utf8::encode_utf8("server bind failed"@) == server_bind_failed(),
{
    reveal_strlit("server bind failed");
    let s = "server bind failed"@;
    assert(vstd::utf8::is_ascii_chars(s));
    vstd::utf8::is_ascii_chars_encode_utf8(s);
    assert(vstd::utf8::encode_utf8(s) =~= server_bind_failed());
}


/// A relay whose connection has just come up.
pub open spec fn fresh_relay(
    screen: Screen,
    agent_socket: bool,
    oauth_redirect: bool,
    forward_open: bool,
    rendered_offset: u64,
    l: SecurityLimiters,
    now: Now,
) -> RelayModel {
    RelayModel {
        screen,
        agent_socket,
        oauth_redirect,
        forward_open,
        agent: Map::empty(),
        tunnel: Map::empty(),
        tunnel_listening: false,
        next_tunnel_id: 1,
        forwards: Map::empty(),
        channels: Map::empty(),
        pending: Map::empty(),
        initiated: Map::empty(),
        next_channel_id: 2,
        bytes_relayed: 0,
        rendered_offset,
        last_activity: now.wall,
        last_outbound: now.mono,
        last_ping: now.micros,
        last_rtt: None,
        url: l.url@,
        clipboard_set: l.clipboard_set@,
        tunnel_listen: l.tunnel_listen@,
        agent_open: l.agent_open@,
    }
}

/// The relay for the next connection after `m` was lost.
pub open spec fn next_relay(m: RelayModel, now: Now) -> RelayModel {
    RelayModel {
        agent: Map::empty(),
        tunnel: Map::empty(),
        tunnel_listening: false,
        next_tunnel_id: 1,
        forwards: Map::empty(),
        channels: Map::empty(),
        pending: Map::empty(),
        initiated: Map::empty(),
        next_channel_id: 2,
        bytes_relayed: 0,
        last_activity: now.wall,
        last_outbound: now.mono,
        last_ping: now.micros,
        last_rtt: None,
        ..m
    }
}

/// What happens to a connection to the local agent.
pub enum AgentEvent {
    /// The connection for a channel is there.
    Connected { channel_id: u32 },
    /// There is no connection for a channel.
    Refused { channel_id: u32 },
    /// The connection does not keep up with its data.
    Backpressured { channel_id: u32 },
    Data { channel_id: u32, data: Vec<u8> },
    Closed { channel_id: u32 },
}

pub open spec fn agent_effect(
    pre: RelayModel,
    event: AgentEvent,
    post: RelayModel,
    acts: Seq<RelayAction>,
) -> bool {
    match event {
        AgentEvent::Connected { channel_id } => {
            &&& post == RelayModel { agent: pre.agent.insert(channel_id, ()), ..pre }
            &&& acts == Seq::<RelayAction>::empty()
        },
        AgentEvent::Refused { channel_id } => {
            &&& post == pre
            &&& acts == seq![RelayAction::Notify(Frame::AgentClose { channel_id })]
        },
        AgentEvent::Backpressured { channel_id } => {
            &&& post == RelayModel { agent: pre.agent.remove(channel_id), ..pre }
            &&& acts == seq![
                RelayAction::DropAgent { channel_id },
                RelayAction::Notify(Frame::AgentClose { channel_id }),
            ]
        },
        AgentEvent::Data { channel_id, data } => {
            &&& post == pre
            &&& acts == if pre.agent.contains_key(channel_id) {
                seq![RelayAction::Send(Frame::AgentData { channel_id, data })]
            } else {
                seq![]
            }
        },
        AgentEvent::Closed { channel_id } => {
            &&& post == RelayModel { agent: pre.agent.remove(channel_id), ..pre }
            &&& acts == if pre.agent.contains_key(channel_id) {
                seq![RelayAction::Send(Frame::AgentClose { channel_id })]
            } else {
                seq![]
            }
        },
    }
}

/// What happens to the tunnel that catches a sign-in redirect.
pub enum TunnelEvent {
    /// The local port is bound.
    Bound,
    /// The local port could not be bound.
    BindFailed,
    Accepted { channel_id: u32 },
    Backpressured { channel_id: u32 },
    Data { channel_id: u32, data: Vec<u8> },
    Closed { channel_id: u32 },
}

pub open spec fn tunnel_effect(
    pre: RelayModel,
    event: TunnelEvent,
    post: RelayModel,
    acts: Seq<RelayAction>,
) -> bool {
    match event {
        TunnelEvent::Bound => {
            &&& post == RelayModel { tunnel_listening: true, ..pre }
            &&& acts == Seq::<RelayAction>::empty()
        },
        TunnelEvent::BindFailed => {
            &&& post == pre
            &&& acts == seq![
                RelayAction::Notify(Frame::TunnelClose { channel_id: TUNNEL_DECLINE_CHANNEL }),
            ]
        },
        TunnelEvent::Accepted { channel_id } => {
            &&& post == RelayModel { tunnel: pre.tunnel.insert(channel_id, ()), ..pre }
            &&& acts == seq![RelayAction::Send(Frame::TunnelOpen { channel_id })]
        },
        TunnelEvent::Backpressured { channel_id } => {
            &&& post == RelayModel { tunnel: pre.tunnel.remove(channel_id), ..pre }
            &&& acts == seq![
                RelayAction::DropTunnel { channel_id },
                RelayAction::Notify(Frame::TunnelClose { channel_id }),
            ]
        },
        TunnelEvent::Data { channel_id, data } => {
            &&& post == pre
            &&& acts == seq![RelayAction::Send(Frame::TunnelData { channel_id, data })]
        },
        TunnelEvent::Closed { channel_id } => {
            &&& post == RelayModel { tunnel: pre.tunnel.remove(channel_id), ..pre }
            &&& acts == seq![RelayAction::Send(Frame::TunnelClose { channel_id })]
        },
    }
}

/// What happens to a port forward and its connections.
pub enum ForwardEvent {
    /// A channel that the server opened is connected.
    Connected { forward_id: u32, channel_id: u32 },
    Refused { channel_id: u32 },
    /// A connection came in on a port that this client listens on.
    Accepted { forward_id: u32, channel_id: u32 },
    Backpressured { channel_id: u32 },
    Data { channel_id: u32, data: Vec<u8> },
    Closed { channel_id: u32 },
    /// The command that asked for the forward went away.
    Stopped { forward_id: u32 },
}

pub open spec fn forward_effect(
    pre: RelayModel,
    event: ForwardEvent,
    post: RelayModel,
    acts: Seq<RelayAction>,
) -> bool {
    match event {
        ForwardEvent::Connected { forward_id, channel_id } => {
            &&& post == RelayModel { channels: pre.channels.insert(channel_id, forward_id), ..pre }
            &&& acts == Seq::<RelayAction>::empty()
        },
        ForwardEvent::Refused { channel_id } => {
            &&& post == pre
            &&& acts == seq![RelayAction::Notify(Frame::PortForwardClose { channel_id })]
        },
        ForwardEvent::Accepted { forward_id, channel_id } => {
            if pre.forwards.contains_key(forward_id) {
                &&& post == RelayModel {
                    channels: pre.channels.insert(channel_id, forward_id),
                    ..pre
                }
                &&& acts == seq![
                    RelayAction::Send(
                        Frame::PortForwardOpen {
                            forward_id,
                            channel_id,
                            target_port: pre.forwards[forward_id],
                        },
                    ),
                ]
            } else {
                &&& post == pre
                &&& acts == Seq::<RelayAction>::empty()
            }
        },
        ForwardEvent::Backpressured { channel_id } => {
            &&& post == RelayModel { channels: pre.channels.remove(channel_id), ..pre }
            &&& acts == seq![
                RelayAction::DropForwardChannel { channel_id },
                RelayAction::Notify(Frame::PortForwardClose { channel_id }),
            ]
        },
        ForwardEvent::Data { channel_id, data } => {
            &&& post == pre
            &&& acts == if pre.channels.contains_key(channel_id) {
                seq![RelayAction::Send(Frame::PortForwardData { channel_id, data })]
            } else {
                seq![]
            }
        },
        ForwardEvent::Closed { channel_id } => {
            &&& post == RelayModel { channels: pre.channels.remove(channel_id), ..pre }
            &&& acts == if pre.channels.contains_key(channel_id) {
                seq![RelayAction::Send(Frame::PortForwardClose { channel_id })]
            } else {
                seq![]
            }
        },
        ForwardEvent::Stopped { forward_id } => {
            &&& post == without_forward(pre, forward_id)
            &&& acts == if pre.forwards.contains_key(forward_id) {
                seq![
                    RelayAction::StopForward { forward_id },
                    RelayAction::DropForwardChannels { forward_id },
                    RelayAction::Send(Frame::PortForwardStop { forward_id }),
                ]
            } else {
                seq![
                    RelayAction::DropForwardChannels { forward_id },
                    RelayAction::Send(Frame::PortForwardStop { forward_id }),
                ]
            }
        },
    }
}

/// What a command asks for on the forward socket: one byte for the direction
/// (0 forwards from the server, 1 from this machine), the port to listen on
/// and the port to lead to, both most significant byte first.
#[derive(Debug, Clone, Copy, PartialEq, Eq, Structural)]
pub struct ForwardRequest {
    pub direction: u8,
    pub listen_port: u16,
    pub target_port: u16,
}

pub open spec fn port_bytes(p: u16) -> Seq<u8> {
    seq![(p / 256) as u8, (p % 256) as u8]
}

/// A request as it travels: five bytes.
pub open spec fn request_bytes(r: ForwardRequest) -> Seq<u8> {
    seq![r.direction] + port_bytes(r.listen_port) + port_bytes(r.target_port)
}

pub open spec fn port_of(hi: u8, lo: u8) -> u16 {
    (hi * 256 + lo) as u16
}

/// The request that five bytes stand for.
pub open spec fn request_of(b: Seq<u8>) -> ForwardRequest {
    ForwardRequest {
        direction: b[0],
        listen_port: port_of(b[1], b[2]),
        target_port: port_of(b[3], b[4]),
    }
}

/// A forward request as bytes.
pub fn encode_forward_request(r: ForwardRequest) -> (b: Vec<u8>)
    ensures
        b@ == request_bytes(r),
{
    let mut b: Vec<u8> = Vec::new();
    b.push(r.direction);
    b.push((r.listen_port / 256) as u8);
    b.push((r.listen_port % 256) as u8);
    b.push((r.target_port / 256) as u8);
    b.push((r.target_port % 256) as u8);
    assert(b@ == request_bytes(r));
    b
}

/// The forward request in five bytes; fewer or more are none.
pub fn decode_forward_request(b: &[u8]) -> (r: Option<ForwardRequest>)
    ensures
        r is Some <==> b@.len() == 5,
        r matches Some(q) ==> q == request_of(b@),
{
    if b.len() != 5 {
        return None;
    }
    Some(
        ForwardRequest {
            direction: b[0],
            listen_port: b[1] as u16 * 256 + b[2] as u16,
            target_port: b[3] as u16 * 256 + b[4] as u16,
        },
    )
}

/// A request that was sent is the request that arrives.
pub proof fn law_forward_request_round_trip(r: ForwardRequest)
    ensures
        request_bytes(r).len() == 5,
        request_of(request_bytes(r)) == r,
{
    let b = request_bytes(r);
    assert(b[0] == r.direction);
    assert(b[1] == (r.listen_port / 256) as u8 && b[2] == (r.listen_port % 256) as u8);
    assert(b[3] == (r.target_port / 256) as u8 && b[4] == (r.target_port % 256) as u8);
}

/// What a forward request leads to next.
pub enum ForwardStep {
    /// Listen on the request's port, then report how that went.
    Bind,
    /// Send this to the server, then report whether it got through.
    Request(Frame),
    /// Answer the command; it is done.
    Refuse(Vec<u8>),
    /// Keep the command waiting until the server confirms or refuses.
    Wait,
    /// Answer the command and watch it until it goes away.
    Establish(Vec<u8>),
}

pub open spec fn request_frame(forward_id: u32, r: ForwardRequest) -> Frame {
    Frame::PortForwardRequest {
        forward_id,
        direction: r.direction,
        listen_port: r.listen_port,
        target_port: r.target_port,
    }
}

/// A forward that leads back to this machine is registered with its target, so
/// that the server cannot choose another.
pub open spec fn registered(m: RelayModel, forward_id: u32, r: ForwardRequest) -> RelayModel {
    RelayModel {
        initiated: if r.direction == 0 {
            m.initiated.insert(forward_id, r.target_port)
        } else {
            m.initiated
        },
        ..m
    }
}

/// What asking for a forward does: the state after it, the number of the
/// forward, and what comes next.
pub open spec fn request_effect(
    pre: RelayModel,
    r: ForwardRequest,
    post: RelayModel,
    id: u32,
    out: ForwardStep,
) -> bool {
    let numbered = RelayModel { next_channel_id: pre.next_channel_id.wrapping_add(2), ..pre };
    &&& id == pre.next_channel_id
    &&& if r.direction == 1 {
        post == numbered && out == ForwardStep::Bind
    } else {
        post == registered(numbered, id, r) && out == ForwardStep::Request(request_frame(id, r))
    }
}

/// What the outcome of listening for a forward does.
pub open spec fn bound_effect(
    pre: RelayModel,
    forward_id: u32,
    r: ForwardRequest,
    failure: Option<String>,
    post: RelayModel,
    out: ForwardStep,
) -> bool {
    match failure {
        None => {
            &&& post == registered(
                RelayModel { forwards: pre.forwards.insert(forward_id, r.target_port), ..pre },
                forward_id,
                r,
            )
            &&& out == ForwardStep::Request(request_frame(forward_id, r))
        },
        Some(e) => {
            &&& post == pre
            &&& out matches ForwardStep::Refuse(b) && b@ == seq![2u8] + vstd::utf8::encode_utf8(
                "bind failed: "@ + e@,
            )
        },
    }
}

/// What the fate of a request for a forward does.
pub open spec fn requested_effect(
    pre: RelayModel,
    forward_id: u32,
    r: ForwardRequest,
    got_through: bool,
    post: RelayModel,
    out: ForwardStep,
) -> bool {
    if !got_through {
        &&& post == pre
        &&& out matches ForwardStep::Refuse(b) && b@ == seq![2u8] + vstd::utf8::encode_utf8(
            "server connection lost"@,
        )
    } else if r.direction == 0 {
        &&& post == (RelayModel { pending: pre.pending.insert(forward_id, ()), ..pre })
        &&& out == ForwardStep::Wait
    } else {
        &&& post == with_forward(pre, forward_id, r.target_port)
        &&& out matches ForwardStep::Establish(b) && b@ == seq![1u8]
    }
}

/// What stands for a running session in its status report.
pub struct StatusFacts {
    pub session: String,
    /// The last round trip, ready to print, or `n/a`.
    pub rtt: String,
    pub uptime_secs: u64,
}

pub open spec fn forward_line(port: u16, connections: nat) -> Seq<char> {
    "\x1b[0m\x1b[2m  port forward    :"@ + text::decimal(port as nat) + " ("@ + text::decimal(
        connections,
    ) + " connections)\r\n"@
}

/// One line for each forward.
pub open spec fn forward_lines(rows: Seq<(u32, u16)>, channels: Map<u32, u32>) -> Seq<char>
    decreases rows.len(),
{
    if rows.len() == 0 {
        seq![]
    } else {
        forward_lines(rows.drop_last(), channels) + forward_line(
            rows.last().1,
            table::keys_with(channels, rows.last().0).len(),
        )
    }
}

pub open spec fn report_head(m: RelayModel, f: StatusFacts) -> Seq<char> {
    "\r\n\x1b[2;33m[gritty status]\r\n\x1b[0m\x1b[2m  session: "@ + f.session@
        + "\r\n\x1b[0m\x1b[2m  rtt: "@ + f.rtt@ + "\r\n\x1b[0m\x1b[2m  connected: "@
        + chrome::uptime(f.uptime_secs) + "\r\n\x1b[0m\x1b[2m  bytes relayed: "@
        + outside::human_size(m.bytes_relayed) + "\r\n\x1b[0m\x1b[2m  agent forwarding: "@ + (
    if m.agent_socket {
        "on ("@ + text::decimal(m.agent.dom().len()) + " channels)"@
    } else {
        "off"@
    }) + "\r\n\x1b[0m\x1b[2m  open forwarding: "@ + (if m.oauth_redirect {
        "on"@
    } else {
        "off"@
    }) + "\r\n\x1b[0m\x1b[2m  oauth tunnel: "@ + (if m.tunnel.dom().len() > 0 {
        "active ("@ + text::decimal(m.tunnel.dom().len()) + " channels)"@
    } else if m.tunnel_listening {
        "listening"@
    } else {
        "idle"@
    }) + "\r\n"@
}

/// Whether `s` reports the state `m`, with the forwards in some order.
pub open spec fn is_report(s: Seq<char>, m: RelayModel, f: StatusFacts) -> bool {
    exists|rows: Seq<(u32, u16)>| #[trigger]
        table::distinct_keys(rows) && table::rows_map(rows) == m.forwards && s == report_head(m, f)
            + forward_lines(rows, m.channels) + "\x1b[0m"@
}

/// Whether `acts` carry out what the keyboard asked for.
pub open spec fn acts_on(
    acts: Seq<RelayAction>,
    events: Seq<crate::escape::Escaped>,
    m: RelayModel,
    f: StatusFacts,
) -> bool
    decreases events.len(),
{
    if events.len() == 0 {
        acts.len() == 0
    } else {
        let before = events.drop_last();
        match events.last() {
            crate::escape::Escaped::Data(d) => {
                &&& acts.len() > 0
                &&& acts.last() matches RelayAction::Send(Frame::Data(v)) && v@ == d
                &&& acts_on(acts.drop_last(), before, m, f)
            },
            crate::escape::Escaped::Detach => {
                &&& acts.len() > 0
                &&& acts.last() matches RelayAction::Print(t) && t@ == leave_alt()
                    + chrome::status_banner("detached"@)
                &&& acts_on(acts.drop_last(), before, m, f)
            },
            crate::escape::Escaped::Reconnect => acts_on(acts, before, m, f),
            crate::escape::Escaped::Suspend => {
                &&& acts.len() > 0
                &&& acts.last() == RelayAction::Suspend
                &&& acts_on(acts.drop_last(), before, m, f)
            },
            crate::escape::Escaped::Pin => {
                &&& acts.len() > 0
                &&& acts.last() == RelayAction::Send(Frame::Pin)
                &&& acts_on(acts.drop_last(), before, m, f)
            },
            crate::escape::Escaped::Status => {
                &&& acts.len() > 1
                &&& acts.last() == RelayAction::Send(Frame::DiagRequest)
                &&& acts[acts.len() - 2] matches RelayAction::Print(t) && is_report(t@, m, f)
                &&& acts_on(acts.drop_last().drop_last(), before, m, f)
            },
            crate::escape::Escaped::Help => {
                &&& acts.len() > 0
                &&& acts.last() matches RelayAction::Print(t) && t@ == crate::escape::ESCAPE_HELP@
                &&& acts_on(acts.drop_last(), before, m, f)
            },
        }
    }
}

/// How what was typed ends the relay, if it does.
pub open spec fn typed_exit(events: Seq<crate::escape::Escaped>) -> Option<RelayExit> {
    if events.len() == 0 {
        None
    } else {
        match events.last() {
            crate::escape::Escaped::Detach => Some(RelayExit::Exit(0)),
            crate::escape::Escaped::Reconnect => Some(RelayExit::Disconnected),
            _ => None,
        }
    }
}

/// What was typed, where in the line it began, and what it meets.
pub struct Typing {
    pub state: crate::escape::EscapeState,
    pub input: Seq<u8>,
    pub escapes_on: bool,
    pub facts: StatusFacts,
    pub hb_timeout: u64,
    pub now: Now,
}

/// What typing does: where in the line it ends, the actions, and the end, if it
/// is one.
pub open spec fn input_effect(
    m: RelayModel,
    t: Typing,
    end: crate::escape::EscapeState,
    acts: Seq<RelayAction>,
    exit: Option<RelayExit>,
) -> bool {
    let stale = chrome::wall_between(m.last_activity, t.now.wall) > t.hb_timeout;
    let run = crate::escape::escapes(t.state, seq![], t.input);
    if stale {
        &&& acts.len() == 0
        &&& exit == Some(RelayExit::Disconnected)
        &&& end == t.state
    } else if t.escapes_on {
        &&& acts_on(acts, run.0, m, t.facts)
        &&& exit == typed_exit(run.0)
        &&& end == run.1
    } else {
        &&& acts.len() == 1
        &&& acts[0] matches RelayAction::Send(Frame::Data(v)) && v@ == t.input
        &&& exit is None
        &&& end == t.state
    }
}

/// What a tick of the heartbeat does.
pub open spec fn heartbeat_effect(
    pre: RelayModel,
    hb_interval: u64,
    hb_timeout: u64,
    now: Now,
    post: RelayModel,
    acts: Seq<RelayAction>,
    exit: Option<RelayExit>,
) -> bool {
    let idle = chrome::wall_between(pre.last_activity, now.wall);
    let quiet = chrome::wall_between(pre.last_outbound, now.mono);
    if idle > hb_timeout {
        &&& post == pre
        &&& acts.len() == 0
        &&& exit == Some(RelayExit::Disconnected)
    } else if quiet >= hb_interval || idle >= hb_interval {
        &&& post == (RelayModel { last_ping: now.micros, ..pre })
        &&& acts == seq![RelayAction::Send(Frame::Ping)]
        &&& exit is None
    } else {
        &&& post == pre
        &&& acts.len() == 0
        &&& exit is None
    }
}

/// What the connection to the server delivered: a message, or nothing once it
/// failed or was closed.
pub open spec fn server_effect(
    pre: RelayModel,
    frame: Option<Frame>,
    now: Now,
    post: RelayModel,
    acts: Seq<RelayAction>,
    exit: Option<RelayExit>,
) -> bool {
    match frame {
        Some(f) => frame_effect(
            RelayModel { last_activity: now.wall, ..pre },
            f,
            now,
            post,
            acts,
            exit,
        ),
        None => post == pre && acts.len() == 0 && exit == Some(RelayExit::Disconnected),
    }
}

/// The client is back after a suspension.
pub open spec fn resumed_effect(
    pre: RelayModel,
    cols: u16,
    rows: u16,
    now: Now,
    post: RelayModel,
    acts: Seq<RelayAction>,
    exit: Option<RelayExit>,
) -> bool {
    &&& post == (RelayModel { last_activity: now.wall, ..pre })
    &&& acts == seq![RelayAction::Send(Frame::Resize { cols, rows })]
    &&& exit is None
}

/// The network path changed.
pub open spec fn network_effect(
    pre: RelayModel,
    now: Now,
    post: RelayModel,
    acts: Seq<RelayAction>,
    exit: Option<RelayExit>,
) -> bool {
    &&& post == (RelayModel { last_ping: now.micros, ..pre })
    &&& acts == seq![RelayAction::Send(Frame::Ping)]
    &&& exit is None
}

/// A message got through.
pub open spec fn after_sending(m: RelayModel, now: Now) -> RelayModel {
    RelayModel { last_outbound: now.mono, ..m }
}

/// The number that a tunnel connection gets, and the state after that.
pub open spec fn numbered_tunnel(m: RelayModel) -> (u32, RelayModel) {
    (m.next_tunnel_id, RelayModel { next_tunnel_id: m.next_tunnel_id.wrapping_add(1), ..m })
}

/// The number that a forward or a forwarded connection gets, and the state
/// after that.
pub open spec fn numbered_channel(m: RelayModel) -> (u32, RelayModel) {
    (m.next_channel_id, RelayModel { next_channel_id: m.next_channel_id.wrapping_add(2), ..m })
}

/// What ends a relay from outside.
#[derive(Debug, Clone, Copy, PartialEq, Eq, Structural)]
pub enum Interrupt {
    StdinClosed,
    Terminate,
    Hangup,
}

/// How a relay ends that is interrupted.
pub open spec fn interrupt_exit(i: Interrupt) -> RelayExit {
    match i {
        Interrupt::StdinClosed => RelayExit::Exit(0),
        Interrupt::Terminate => RelayExit::Exit(1),
        Interrupt::Hangup => RelayExit::Exit(1),
    }
}

/// The end of the input is a good end; a signal is not.
pub proof fn law_only_the_end_of_input_is_a_good_end(i: Interrupt)
    ensures
        interrupt_exit(i) matches RelayExit::Exit(code) && (code == 0 <==> i is StdinClosed),
{
}

/// How a relay ends that is interrupted.
pub fn interrupted(i: Interrupt) -> (r: RelayExit)
    ensures
        r == interrupt_exit(i),
{
    match i {
        Interrupt::StdinClosed => RelayExit::Exit(0),
        Interrupt::Terminate => RelayExit::Exit(1),
        Interrupt::Hangup => RelayExit::Exit(1),
    }
}

fn two(a: RelayAction, b: RelayAction) -> (s: RelayStep)
    ensures
        s.actions@ == seq![a, b],
        s.exit is None,
{
    let mut actions: Vec<RelayAction> = Vec::new();
    actions.push(a);
    actions.push(b);
    assert(actions@ == seq![a, b]);
    RelayStep { actions, exit: None }
}

impl Relay {
    /// A relay for a first connection.
    pub fn new(
        agent_socket: bool,
        oauth_redirect: bool,
        forward_open: bool,
        limiters: SecurityLimiters,
        now: Now,
    ) -> (r: Relay)
        requires
            limits_ok(limiters),
        ensures
            r.wf(),
            r@ == fresh_relay(
                alt_screen::fresh_screen(),
                agent_socket,
                oauth_redirect,
                forward_open,
                0,
                limiters,
                now,
            ),
    {
        Relay {
            screen: AltScreenTracker::new(),
            agent_socket,
            oauth_redirect,
            forward_open,
            agent: Table::new(),
            tunnel: Table::new(),
            tunnel_listening: false,
            next_tunnel_id: 1,
            forwards: Table::new(),
            channels: Table::new(),
            pending: Table::new(),
            initiated: Table::new(),
            next_channel_id: 2,
            bytes_relayed: 0,
            rendered_offset: 0,
            last_activity: now.wall,
            last_outbound: now.mono,
            last_ping: now.micros,
            last_rtt: None,
            limiters,
        }
    }

    /// The relay for the next connection of the same session: what the screen
    /// shows, how far it got and what the limits remember stay.
    pub fn reconnected(self, now: Now) -> (r: Relay)
        requires
            self.wf(),
        ensures
            r.wf(),
            r@ == next_relay(self@, now),
    {
        Relay {
            screen: self.screen,
            agent_socket: self.agent_socket,
            oauth_redirect: self.oauth_redirect,
            forward_open: self.forward_open,
            agent: Table::new(),
            tunnel: Table::new(),
            tunnel_listening: false,
            next_tunnel_id: 1,
            forwards: Table::new(),
            channels: Table::new(),
            pending: Table::new(),
            initiated: Table::new(),
            next_channel_id: 2,
            bytes_relayed: 0,
            rendered_offset: self.rendered_offset,
            last_activity: now.wall,
            last_outbound: now.mono,
            last_ping: now.micros,
            last_rtt: None,
            limiters: self.limiters,
        }
    }

    /// Number a tunnel connection that came in.
    pub fn next_tunnel(&mut self) -> (id: u32)
        ensures
            (id, final(self)@) == numbered_tunnel(old(self)@),
            old(self).wf() ==> final(self).wf(),
    {
        let id: u32 = self.next_tunnel_id;
        self.next_tunnel_id = id.wrapping_add(1);
        id
    }

    /// Number a forward or a forwarded connection of this client.
    pub fn next_channel(&mut self) -> (id: u32)
        ensures
            (id, final(self)@) == numbered_channel(old(self)@),
            old(self).wf() ==> final(self).wf(),
    {
        let id: u32 = self.next_channel_id;
        self.next_channel_id = id.wrapping_add(2);
        id
    }

    /// A message got through.
    pub fn sent(&mut self, now: Now)
        ensures
            final(self)@ == after_sending(old(self)@, now),
            old(self).wf() ==> final(self).wf(),
    {
        self.last_outbound = now.mono;
    }

    pub fn handle_agent_event(&mut self, event: AgentEvent) -> (step: RelayStep)
        requires
            old(self).wf(),
        ensures
            final(self).wf(),
            agent_effect(old(self)@, event, final(self)@, step.actions@),
            step.exit is None,
    {
        match event {
            AgentEvent::Connected { channel_id } => {
                self.agent.insert(channel_id, ());
                nothing()
            },
            AgentEvent::Refused { channel_id } => one(
                RelayAction::Notify(Frame::AgentClose { channel_id }),
            ),
            AgentEvent::Backpressured { channel_id } => {
                let _ = self.agent.remove(channel_id);
                two(
                    RelayAction::DropAgent { channel_id },
                    RelayAction::Notify(Frame::AgentClose { channel_id }),
                )
            },
            AgentEvent::Data { channel_id, data } => {
                if self.agent.contains(channel_id) {
                    one(RelayAction::Send(Frame::AgentData { channel_id, data }))
                } else {
                    nothing()
                }
            },
            AgentEvent::Closed { channel_id } => {
                if self.agent.remove(channel_id) {
                    one(RelayAction::Send(Frame::AgentClose { channel_id }))
                } else {
                    nothing()
                }
            },
        }
    }

    pub fn handle_tunnel_event(&mut self, event: TunnelEvent) -> (step: RelayStep)
        requires
            old(self).wf(),
        ensures
            final(self).wf(),
            tunnel_effect(old(self)@, event, final(self)@, step.actions@),
            step.exit is None,
    {
        match event {
            TunnelEvent::Bound => {
                self.tunnel_listening = true;
                nothing()
            },
            TunnelEvent::BindFailed => one(
                RelayAction::Notify(Frame::TunnelClose { channel_id: TUNNEL_DECLINE_CHANNEL }),
            ),
            TunnelEvent::Accepted { channel_id } => {
                self.tunnel.insert(channel_id, ());
                one(RelayAction::Send(Frame::TunnelOpen { channel_id }))
            },
            TunnelEvent::Backpressured { channel_id } => {
                let _ = self.tunnel.remove(channel_id);
                two(
                    RelayAction::DropTunnel { channel_id },
                    RelayAction::Notify(Frame::TunnelClose { channel_id }),
                )
            },
            TunnelEvent::Data { channel_id, data } => one(
                RelayAction::Send(Frame::TunnelData { channel_id, data }),
            ),
            TunnelEvent::Closed { channel_id } => {
                let _ = self.tunnel.remove(channel_id);
                one(RelayAction::Send(Frame::TunnelClose { channel_id }))
            },
        }
    }

    pub fn handle_pf_event(&mut self, event: ForwardEvent) -> (step: RelayStep)
        requires
            old(self).wf(),
        ensures
            final(self).wf(),
            forward_effect(old(self)@, event, final(self)@, step.actions@),
            step.exit is None,
    {
        match event {
            ForwardEvent::Connected { forward_id, channel_id } => {
                self.channels.insert(channel_id, forward_id);
                nothing()
            },
            ForwardEvent::Refused { channel_id } => one(
                RelayAction::Notify(Frame::PortForwardClose { channel_id }),
            ),
            ForwardEvent::Accepted { forward_id, channel_id } => {
                match self.forwards.get(forward_id) {
                    Some(target_port) => {
                        self.channels.insert(channel_id, forward_id);
                        one(
                            RelayAction::Send(
                                Frame::PortForwardOpen { forward_id, channel_id, target_port },
                            ),
                        )
                    },
                    None => nothing(),
                }
            },
            ForwardEvent::Backpressured { channel_id } => {
                let _ = self.channels.remove(channel_id);
                two(
                    RelayAction::DropForwardChannel { channel_id },
                    RelayAction::Notify(Frame::PortForwardClose { channel_id }),
                )
            },
            ForwardEvent::Data { channel_id, data } => {
                if self.channels.contains(channel_id) {
                    one(RelayAction::Send(Frame::PortForwardData { channel_id, data }))
                } else {
                    nothing()
                }
            },
            ForwardEvent::Closed { channel_id } => {
                if self.channels.remove(channel_id) {
                    one(RelayAction::Send(Frame::PortForwardClose { channel_id }))
                } else {
                    nothing()
                }
            },
            ForwardEvent::Stopped { forward_id } => {
                let known = self.forget_forward(forward_id);
                let mut s = two(
                    RelayAction::DropForwardChannels { forward_id },
                    RelayAction::Send(Frame::PortForwardStop { forward_id }),
                );
                if known {
                    s.actions.insert(0, RelayAction::StopForward { forward_id });
                    assert(s.actions@ == seq![
                        RelayAction::StopForward { forward_id },
                        RelayAction::DropForwardChannels { forward_id },
                        RelayAction::Send(Frame::PortForwardStop { forward_id }),
                    ]);
                }
                s
            },
        }
    }

    /// A command asked for a forward: number it, and listen first where this
    /// machine is the one that listens.
    pub fn handle_fwd_request(&mut self, r: ForwardRequest) -> (out: (u32, ForwardStep))
        requires
            old(self).wf(),
        ensures
            final(self).wf(),
            request_effect(old(self)@, r, final(self)@, out.0, out.1),
    {
        let forward_id = self.next_channel();
        if r.direction == 1 {
            (forward_id, ForwardStep::Bind)
        } else {
            (forward_id, self.forward_register(forward_id, r))
        }
    }

    fn forward_register(&mut self, forward_id: u32, r: ForwardRequest) -> (out: ForwardStep)
        requires
            old(self).wf(),
        ensures
            final(self).wf(),
            final(self)@ == registered(old(self)@, forward_id, r),
            out == ForwardStep::Request(request_frame(forward_id, r)),
    {
        if r.direction == 0 {
            self.initiated.insert(forward_id, r.target_port);
        }
        ForwardStep::Request(
            Frame::PortForwardRequest {
                forward_id,
                direction: r.direction,
                listen_port: r.listen_port,
                target_port: r.target_port,
            },
        )
    }

    /// Listening for a forward worked (`None`) or failed for a reason.
    pub fn forward_bound(
        &mut self,
        forward_id: u32,
        r: ForwardRequest,
        failure: Option<String>,
    ) -> (out: ForwardStep)
        requires
            old(self).wf(),
        ensures
            final(self).wf(),
            bound_effect(old(self)@, forward_id, r, failure, final(self)@, out),
    {
        match failure {
            None => {
                self.forwards.insert(forward_id, r.target_port);
                self.forward_register(forward_id, r)
            },
            Some(e) => {
                let msg = cat2("bind failed: ", e.as_str());
                ForwardStep::Refuse(failure_reply(msg.as_str()))
            },
        }
    }

    /// The request for a forward got through to the server, or did not.
    pub fn forward_requested(
        &mut self,
        forward_id: u32,
        r: ForwardRequest,
        got_through: bool,
    ) -> (out: ForwardStep)
        requires
            old(self).wf(),
        ensures
            final(self).wf(),
            requested_effect(old(self)@, forward_id, r, got_through, final(self)@, out),
    {
        if !got_through {
            return ForwardStep::Refuse(failure_reply("server connection lost"));
        }
        if r.direction == 0 {
            self.pending.insert(forward_id, ());
            return ForwardStep::Wait;
        }
        self.ensure_forward(forward_id, r.target_port);
        let mut b: Vec<u8> = Vec::new();
        b.push(1);
        assert(b@ == seq![1u8]);
        ForwardStep::Establish(b)
    }

    /// The status of the session, for `~#`.
    pub fn status_report(&self, facts: &StatusFacts) -> (s: String)
        requires
            self.wf(),
        ensures
            is_report(s@, self@, *facts),
    {
        let mut s = copy("\r\n\x1b[2;33m[gritty status]\r\n\x1b[0m\x1b[2m  session: ");
        s.append(facts.session.as_str());
        s.append("\r\n\x1b[0m\x1b[2m  rtt: ");
        s.append(facts.rtt.as_str());
        s.append("\r\n\x1b[0m\x1b[2m  connected: ");
        let up = uptime_text(facts.uptime_secs);
        s.append(up.as_str());
        s.append("\r\n\x1b[0m\x1b[2m  bytes relayed: ");
        let size = format_size(self.bytes_relayed);
        s.append(size.as_str());
        s.append("\r\n\x1b[0m\x1b[2m  agent forwarding: ");
        let agent = if self.agent_socket {
            let n = decimal_text(self.agent.len() as u64);
            cat3("on (", n.as_str(), " channels)")
        } else {
            copy("off")
        };
        s.append(agent.as_str());
        s.append("\r\n\x1b[0m\x1b[2m  open forwarding: ");
        s.append(
            if self.oauth_redirect {
                "on"
            } else {
                "off"
            },
        );
        s.append("\r\n\x1b[0m\x1b[2m  oauth tunnel: ");
        let count: usize = self.tunnel.len();
        let tunnel = if count > 0 {
            let n = decimal_text(count as u64);
            cat3("active (", n.as_str(), " channels)")
        } else if self.tunnel_listening {
            copy("listening")
        } else {
            copy("idle")
        };
        s.append(tunnel.as_str());
        s.append("\r\n");
        let ghost head = s@;
        assert(head == report_head(self@, *facts));
        let rows = self.forwards.rows();
        let ghost all = rows@;
        let mut i: usize = 0;
        assert(all.take(0) == Seq::<(u32, u16)>::empty());
        assert(head + forward_lines(all.take(0), self.channels@) == head);
        while i < rows.len()
            invariant
                i <= rows.len(),
                self.wf(),
                all == rows@,
                s@ == head + forward_lines(all.take(i as int), self.channels@),
            decreases rows.len() - i,
        {
            let port = decimal_text(rows[i].1 as u64);
            let n = decimal_text(self.channels.count_value(rows[i].0) as u64);
            let line = cat5(
                "\x1b[0m\x1b[2m  port forward    :",
                port.as_str(),
                " (",
                n.as_str(),
                " connections)\r\n",
            );
            proof {
                assert(all.take(i + 1).drop_last() == all.take(i as int));
                assert(all.take(i + 1).last() == rows@[i as int]);
                let f = forward_lines(all.take(i as int), self.channels@);
                assert((head + f) + line@ == head + (f + line@));
            }
            s.append(line.as_str());
            i = i + 1;
        }
        assert(all.take(all.len() as int) == all);
        s.append("\x1b[0m");
        assert(table::distinct_keys(all));
        s
    }

    /// React to what was typed: where the link has been silent for too long,
    /// go straight to reconnecting instead of sending into the void.
    pub fn handle_input(
        &mut self,
        input: &[u8],
        escapes_on: bool,
        escape: &mut crate::escape::EscapeProcessor,
        facts: &StatusFacts,
        hb_timeout: u64,
        now: Now,
    ) -> (step: RelayStep)
        requires
            old(self).wf(),
        ensures
            final(self).wf(),
            final(self)@ == old(self)@,
            input_effect(
                old(self)@,
                Typing {
                    state: old(escape).state,
                    input: input@,
                    escapes_on,
                    facts: *facts,
                    hb_timeout,
                    now,
                },
                final(escape).state,
                step.actions@,
                step.exit,
            ),
    {
        if link_is_stale(self.last_activity, hb_timeout, now.wall) {
            return RelayStep { actions: Vec::new(), exit: Some(RelayExit::Disconnected) };
        }
        if !escapes_on {
            let data = vstd::slice::slice_to_vec(input);
            return one(RelayAction::Send(Frame::Data(data)));
        }
        let typed = escape.process(input);
        let ghost events = crate::escape::action_views(typed@);
        let mut actions: Vec<RelayAction> = Vec::new();
        let mut exit: Option<RelayExit> = None;
        let mut i: usize = 0;
        assert(events.take(0) == Seq::<crate::escape::Escaped>::empty());
        while i < typed.len()
            invariant
                i <= typed.len(),
                self.wf(),
                self@ == old(self)@,
                events == crate::escape::action_views(typed@),
                acts_on(actions@, events.take(i as int), self@, *facts),
                exit == typed_exit(events.take(i as int)),
            decreases typed.len() - i,
        {
            let ghost before = actions@;
            proof {
                assert(events.take(i + 1).drop_last() == events.take(i as int));
                assert(events.take(i + 1).last() == typed@[i as int]@);
            }
            exit = None;
            match &typed[i] {
                crate::escape::EscapeAction::Data(d) => {
                    let data = vstd::slice::slice_to_vec(d.as_slice());
                    actions.push(RelayAction::Send(Frame::Data(data)));
                    assert(actions@.drop_last() == before);
                },
                crate::escape::EscapeAction::Detach => {
                    let msg = status_msg("detached");
                    actions.push(RelayAction::Print(cat2("\x1b[?1049l", msg.as_str())));
                    exit = Some(RelayExit::Exit(0));
                    assert(actions@.drop_last() == before);
                },
                crate::escape::EscapeAction::Reconnect => {
                    exit = Some(RelayExit::Disconnected);
                },
                crate::escape::EscapeAction::Suspend => {
                    actions.push(RelayAction::Suspend);
                    assert(actions@.drop_last() == before);
                },
                crate::escape::EscapeAction::Pin => {
                    actions.push(RelayAction::Send(Frame::Pin));
                    assert(actions@.drop_last() == before);
                },
                crate::escape::EscapeAction::Status => {
                    let report = self.status_report(facts);
                    actions.push(RelayAction::Print(report));
                    actions.push(RelayAction::Send(Frame::DiagRequest));
                    assert(actions@.drop_last().drop_last() == before);
                },
                crate::escape::EscapeAction::Help => {
                    actions.push(RelayAction::Print(copy(crate::escape::ESCAPE_HELP)));
                    assert(actions@.drop_last() == before);
                },
            }
            i = i + 1;
        }
        assert(events.take(events.len() as int) == events);
        RelayStep { actions, exit }
    }

    /// The client is back after a suspension: do not take the pause for a
    /// dead link, and tell the server the size of the terminal again.
    pub fn resumed(&mut self, cols: u16, rows: u16, now: Now) -> (step: RelayStep)
        requires
            old(self).wf(),
        ensures
            final(self).wf(),
            resumed_effect(
                old(self)@,
                cols,
                rows,
                now,
                final(self)@,
                step.actions@,
                step.exit,
            ),
    {
        self.last_activity = now.wall;
        one(RelayAction::Send(Frame::Resize { cols, rows }))
    }

    /// The network path changed: probe the link now.
    pub fn network_changed(&mut self, now: Now) -> (step: RelayStep)
        requires
            old(self).wf(),
        ensures
            final(self).wf(),
            network_effect(old(self)@, now, final(self)@, step.actions@, step.exit),
    {
        self.last_ping = now.micros;
        one(RelayAction::Send(Frame::Ping))
    }

    /// The heartbeat ticked: give up on a link that has been silent for more
    /// than `hb_timeout`, else probe it if nothing was sent or nothing was
    /// heard for a whole interval.
    pub fn heartbeat(&mut self, hb_interval: u64, hb_timeout: u64, now: Now) -> (step: RelayStep)
        requires
            old(self).wf(),
        ensures
            final(self).wf(),
            heartbeat_effect(
                old(self)@,
                hb_interval,
                hb_timeout,
                now,
                final(self)@,
                step.actions@,
                step.exit,
            ),
    {
        if link_is_stale(self.last_activity, hb_timeout, now.wall) {
            return RelayStep { actions: Vec::new(), exit: Some(RelayExit::Disconnected) };
        }
        let idle: u64 = wall_elapsed(self.last_activity, now.wall);
        let quiet: u64 = wall_elapsed(self.last_outbound, now.mono);
        if quiet >= hb_interval || idle >= hb_interval {
            self.last_ping = now.micros;
            one(RelayAction::Send(Frame::Ping))
        } else {
            nothing()
        }
    }
}

/// The messages that set a session up.
pub open spec fn setup_frames(
    env_vars: Vec<(String, String)>,
    forward_agent: bool,
    agent_socket: bool,
    forward_open: bool,
    cols: u16,
    rows: u16,
) -> Seq<Frame> {
    let env = seq![Frame::Env { vars: env_vars }];
    let agent = if forward_agent && agent_socket {
        seq![Frame::AgentForward]
    } else {
        Seq::<Frame>::empty()
    };
    let open = if forward_open {
        seq![Frame::OpenForward]
    } else {
        Seq::<Frame>::empty()
    };
    env + agent + open + seq![Frame::Resize { cols, rows }]
}

/// A session begins with the environment and ends its setup with the size of
/// the terminal. The agent is offered only where the user wants that and has
/// one, the browser only where the user wants that, and nothing else is.
pub proof fn law_setup_offers_what_is_wanted(
    env_vars: Vec<(String, String)>,
    forward_agent: bool,
    agent_socket: bool,
    forward_open: bool,
    cols: u16,
    rows: u16,
)
    ensures
        ({
            let r = setup_frames(env_vars, forward_agent, agent_socket, forward_open, cols, rows);
            &&& r[0] == (Frame::Env { vars: env_vars })
            &&& r.last() == (Frame::Resize { cols, rows })
            &&& r.contains(Frame::AgentForward) <==> forward_agent && agent_socket
            &&& r.contains(Frame::OpenForward) <==> forward_open
            &&& forall|i: int|
                0 < i < r.len() - 1 ==> #[trigger] r[i] == Frame::AgentForward || r[i]
                    == Frame::OpenForward
            &&& r.len() <= 4
        }),
{
    let r = setup_frames(env_vars, forward_agent, agent_socket, forward_open, cols, rows);
    if forward_agent && agent_socket {
        assert(r[1] == Frame::AgentForward);
    }
    if forward_open {
        assert(r[r.len() - 2] == Frame::OpenForward);
    }
}

/// The messages that set a session up, in order: the environment, agent and
/// browser forwarding where they are wanted, and the size of the terminal.
pub fn init_frames(
    env_vars: Vec<(String, String)>,
    forward_agent: bool,
    agent_socket: bool,
    forward_open: bool,
    cols: u16,
    rows: u16,
) -> (r: Vec<Frame>)
    ensures
        r@ == setup_frames(env_vars, forward_agent, agent_socket, forward_open, cols, rows),
{
    let mut r: Vec<Frame> = Vec::new();
    r.push(Frame::Env { vars: env_vars });
    if forward_agent && agent_socket {
        r.push(Frame::AgentForward);
    }
    if forward_open {
        r.push(Frame::OpenForward);
    }
    r.push(Frame::Resize { cols, rows });
    r
}

/// Every message counts as a sign of life.
pub proof fn law_every_frame_is_a_sign_of_life(
    pre: RelayModel,
    frame: Frame,
    now: Now,
    post: RelayModel,
    acts: Seq<RelayAction>,
    exit: Option<RelayExit>,
)
    requires
        frame_effect(RelayModel { last_activity: now.wall, ..pre }, frame, now, post, acts, exit),
    ensures
        post.last_activity == now.wall,
        post.last_outbound == pre.last_outbound,
{
}

/// The server can never make the client listen on a port for a forward, and a
/// forwarded connection only ever leads to the port that this client asked
/// for when it requested the forward.
pub proof fn law_server_never_picks_a_port(
    pre: RelayModel,
    frame: Frame,
    now: Now,
    post: RelayModel,
    acts: Seq<RelayAction>,
    exit: Option<RelayExit>,
    i: int,
)
    requires
        frame_effect(pre, frame, now, post, acts, exit),
        0 <= i < acts.len(),
        acts[i] is ConnectForward,
    ensures
        pre.initiated.contains_key(acts[i]->ConnectForward_forward_id),
        acts[i]->ConnectForward_port == pre.initiated[acts[i]->ConnectForward_forward_id],
{
    if frame is Detached || frame is ServerShutdown {
        assert(acts[1] == acts.skip(1)[0]);
    }
    if frame is PortForwardStop {
        if pre.pending.contains_key(frame->PortForwardStop_forward_id) && i > 0 {
            assert(acts[i] == acts.skip(1)[i - 1]);
        }
    }
}

/// Whatever the server sends, no forward starts to lead anywhere on its own:
/// the targets that this client asked for can only be removed.
pub proof fn law_server_never_adds_a_target(
    pre: RelayModel,
    frame: Frame,
    now: Now,
    post: RelayModel,
    acts: Seq<RelayAction>,
    exit: Option<RelayExit>,
)
    requires
        frame_effect(pre, frame, now, post, acts, exit),
    ensures
        post.initiated.submap_of(pre.initiated),
{
}

/// The clipboard is never read out: the answer to any request for it is empty.
pub proof fn law_clipboard_never_leaves(
    pre: RelayModel,
    frame: Frame,
    now: Now,
    post: RelayModel,
    acts: Seq<RelayAction>,
    exit: Option<RelayExit>,
    i: int,
)
    requires
        frame_effect(pre, frame, now, post, acts, exit),
        0 <= i < acts.len(),
    ensures
        acts[i] matches RelayAction::Notify(Frame::ClipboardData { data }) ==> data@.len() == 0,
        !(acts[i] is Send),
{
    if frame is Detached || frame is ServerShutdown {
        assert(acts[1] == acts.skip(1)[0]);
    }
    if frame is PortForwardStop {
        if pre.pending.contains_key(frame->PortForwardStop_forward_id) && i > 0 {
            assert(acts[i] == acts.skip(1)[i - 1]);
        }
    }
}

/// The browser opens only web addresses, only where that is switched on, and
/// only while the limit allows it.
pub proof fn law_browser_opens_only_allowed(
    pre: RelayModel,
    frame: Frame,
    now: Now,
    post: RelayModel,
    acts: Seq<RelayAction>,
    exit: Option<RelayExit>,
    i: int,
)
    requires
        frame_effect(pre, frame, now, post, acts, exit),
        0 <= i < acts.len(),
    ensures
        acts[i] matches RelayAction::OpenUrl(url) ==> {
            &&& pre.forward_open
            &&& is_web_url(url@)
            &&& allowed(pre.url, 2, now.mono)
            &&& post.url == charged(pre.url, 2, now.mono)
        },
{
    if frame is Detached || frame is ServerShutdown {
        assert(acts[1] == acts.skip(1)[0]);
    }
    if frame is PortForwardStop {
        if pre.pending.contains_key(frame->PortForwardStop_forward_id) && i > 0 {
            assert(acts[i] == acts.skip(1)[i - 1]);
        }
    }
}

/// Only output and the server's own word move the position in the stream:
/// notices do not, so that the next connection asks for exactly what was
/// missed.
pub proof fn law_position_follows_output(
    pre: RelayModel,
    frame: Frame,
    now: Now,
    post: RelayModel,
    acts: Seq<RelayAction>,
    exit: Option<RelayExit>,
)
    requires
        frame_effect(pre, frame, now, post, acts, exit),
        !(frame is Data) && !(frame is Resume),
    ensures
        post.rendered_offset == pre.rendered_offset,
        post.bytes_relayed == pre.bytes_relayed,
{
}

/// Numbers of this client's forwards and channels are even: the server's are
/// odd, so the two never meet.
pub proof fn law_client_channels_even(id: u32)
    requires
        id % 2 == 0,
    ensures
        id.wrapping_add(2) % 2 == 0,
        fresh_even(),
{
}

/// The first number that a connection gives out is even.
pub open spec fn fresh_even() -> bool {
    forall|s: Screen, a: bool, b: bool, c: bool, o: u64, l: SecurityLimiters, now: Now|
        (#[trigger] fresh_relay(s, a, b, c, o, l, now)).next_channel_id % 2 == 0
}

/// No tunnel connection is numbered like a refusal until all other numbers
/// have been given out.
pub proof fn law_tunnel_numbers_skip_refusal(id: u32)
    requires
        id != TUNNEL_DECLINE_CHANNEL,
        id < u32::MAX,
    ensures
        id.wrapping_add(1) == id + 1,
        id.wrapping_add(1) != TUNNEL_DECLINE_CHANNEL,
{
}

/// Numbers are given out one after the other, those of this client's forwards
/// and channels in steps of two, so that none comes again before all have been
/// used.
pub proof fn law_numbers_go_up(m: RelayModel)
    ensures
        ({
            let (a, n) = numbered_channel(m);
            let (b, _) = numbered_channel(n);
            let (c, k) = numbered_tunnel(m);
            let (d, _) = numbered_tunnel(k);
            &&& a < u32::MAX - 1 ==> b == a + 2
            &&& c < u32::MAX ==> d == c + 1
            &&& a == m.next_channel_id && c == m.next_tunnel_id
            &&& n.next_tunnel_id == m.next_tunnel_id && k.next_channel_id == m.next_channel_id
            &&& n.channels == m.channels && k.tunnel == m.tunnel
        }),
{
}

/// A connection that fails ends the relay, which can then reconnect; nothing
/// that it knows is lost.
pub proof fn law_lost_connections_are_not_the_end(
    pre: RelayModel,
    now: Now,
    post: RelayModel,
    acts: Seq<RelayAction>,
    exit: Option<RelayExit>,
)
    requires
        server_effect(pre, None, now, post, acts, exit),
    ensures
        exit == Some(RelayExit::Disconnected),
        acts.len() == 0,
        post == pre,
{
}

/// When a session is left or its server ends, everything that was opened for it
/// is closed first, nothing stays on record, and only a server that ended makes
/// the client fail.
pub proof fn law_leaving_closes_everything(
    pre: RelayModel,
    frame: Frame,
    now: Now,
    post: RelayModel,
    acts: Seq<RelayAction>,
    exit: Option<RelayExit>,
)
    requires
        server_effect(pre, Some(frame), now, post, acts, exit),
        frame is Detached || frame is ServerShutdown,
    ensures
        acts.len() == 2 && acts[0] is Teardown && acts[1] is Print,
        post.agent.is_empty() && post.tunnel.is_empty() && post.forwards.is_empty()
            && post.channels.is_empty() && post.pending.is_empty() && !post.tunnel_listening,
        exit matches Some(RelayExit::Exit(code)) && (code == 0 <==> frame is Detached),
        post.rendered_offset == pre.rendered_offset && post.screen == pre.screen,
{
    assert(acts.skip(1)[0] == acts[1]);
}

} // verus!
