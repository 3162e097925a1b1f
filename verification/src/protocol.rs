//! The messages between client and server, as far as the client's decisions
//! turn on them, and the constants both sides agree on.

use vstd::prelude::*;
use crate::text;
use crate::text::{cat5, decimal_text};

verus! {

/// The version of the protocol that this client speaks.
pub const PROTOCOL_VERSION: u16 = 22;

/// How long a server keeps a connection that says nothing, in seconds.
pub const IDLE_EVICT_TIMEOUT: u64 = 90;

/// How much earlier than that a client wants to have noticed, in seconds.
pub const IDLE_EVICT_SAFETY_MARGIN: u64 = 10;

/// A waiting sender may start.
pub const TRANSFER_GO_PAIRED: u8 = 1;

/// A newer sender in the same session took the waiting one's place.
pub const TRANSFER_GO_SUPERSEDED: u8 = 2;

/// The session is in the middle of another transfer.
pub const TRANSFER_GO_BUSY: u8 = 3;

/// What the client tells a waiting `lf` when the server could not bind.
pub const FWD_ERR_SERVER_BIND: &'static str = "server bind failed";

/// What the reason starts with when the client itself could not bind.
pub const FWD_ERR_BIND_PREFIX: &'static str = "bind failed: ";

/// What is said of a server that speaks another version of the protocol.
pub open spec fn mismatch_text(server_version: u16) -> Seq<char> {
    "protocol version mismatch (local="@ + text::decimal(PROTOCOL_VERSION as nat) + " remote="@
        + text::decimal(server_version as nat) + ") -- run `gritty restart` to upgrade"@
}

/// What is said of a server that speaks another version of the protocol.
pub fn version_mismatch(server_version: u16) -> (r: String)
    ensures
        r@ == mismatch_text(server_version),
{
    let local = decimal_text(PROTOCOL_VERSION as u64);
    let remote = decimal_text(server_version as u64);
    cat5(
        "protocol version mismatch (local=",
        local.as_str(),
        " remote=",
        remote.as_str(),
        ") -- run `gritty restart` to upgrade",
    )
}

/// Refuse to talk to a server that speaks another version of the protocol.
pub fn require_matched_version(server_version: u16) -> (r: Result<(), String>)
    ensures
        r is Ok <==> server_version == PROTOCOL_VERSION,
        r matches Err(e) ==> e@ == mismatch_text(server_version),
{
    if server_version == PROTOCOL_VERSION {
        Ok(())
    } else {
        Err(version_mismatch(server_version))
    }
}

#[derive(Debug, Clone, Copy, PartialEq, Eq, Structural)]
pub enum ErrorCode {
    NoSuchSession,
    AlreadyAttached,
    OwnerChanged,
    VersionMismatch,
    Other,
}

/// One session as the server lists it.
#[derive(Debug)]
pub struct SessionEntry {
    pub id: u32,
    pub name: String,
    pub pty_path: String,
    pub shell_pid: u32,
    pub created_at: u64,
    pub attached: bool,
    pub last_heartbeat: u64,
    pub foreground_cmd: String,
    pub cwd: String,
    pub client_name: String,
    pub agent_forwarding_active: bool,
    pub is_last_attached: bool,
    pub last_activity: u64,
}

/// A message, in either direction.
pub enum Frame {
    /// Bytes of the terminal: output from the server, input to it.
    Data(Vec<u8>),
    /// Where in the output stream the server resumes.
    Resume { offset: u64 },
    /// Text from the server itself, not part of the output stream.
    Notice(Vec<u8>),
    Ping,
    Pong,
    Exit { code: i32 },
    Detached,
    ServerShutdown,
    Env { vars: Vec<(String, String)> },
    Resize { cols: u16, rows: u16 },
    AgentForward,
    AgentOpen { channel_id: u32 },
    AgentData { channel_id: u32, data: Vec<u8> },
    AgentClose { channel_id: u32 },
    OpenForward,
    OpenUrl { url: String },
    ClipboardSet { data: Vec<u8> },
    ClipboardGet,
    ClipboardData { data: Vec<u8> },
    TunnelListen { port: u16 },
    TunnelOpen { channel_id: u32 },
    TunnelData { channel_id: u32, data: Vec<u8> },
    TunnelClose { channel_id: u32 },
    SendOffer { file_count: u32, total_bytes: u64 },
    SendDone,
    SendCancel { reason: String },
    PortForwardRequest { forward_id: u32, direction: u8, listen_port: u16, target_port: u16 },
    PortForwardListen { forward_id: u32, listen_port: u16, target_port: u16 },
    PortForwardReady { forward_id: u32 },
    PortForwardOpen { forward_id: u32, channel_id: u32, target_port: u16 },
    PortForwardData { channel_id: u32, data: Vec<u8> },
    PortForwardClose { channel_id: u32 },
    PortForwardStop { forward_id: u32 },
    /// The session is to be kept, however long nobody is attached to it.
    Pin,
    DiagRequest,
    DiagResponse { text: String },
    /// Anything that a running relay has no use for.
    Other,
}

} // verus!
