//! Wire messages exchanged with the server. On the wire each message is a
//! JSON object whose `type` field names the variant.
use vstd::prelude::*;

verus! {

/// A workspace the server announces in `Welcome`.
#[derive(Debug, Clone)]
pub struct WorkspaceInfo {
    pub workspace_id: u64,
}

/// One recorded agent event of a replay: its sequence number and payload.
#[derive(Debug, Clone)]
pub struct ReplayEntry {
    pub seq: u64,
    pub event: String,
}

/// A protocol message.
#[derive(Debug, Clone)]
pub enum Msg {
    Hello { key: String, client_version: String },
    /// The server accepted the key; the workspaces it runs.
    Welcome { server_version: String, workspaces: Vec<WorkspaceInfo> },
    AuthFailed { reason: String },
    Ping { ts_ms: u64 },
    Pong { client_ts_ms: u64, server_ts_ms: u64 },
    /// A line typed by the user for a workspace's agent; `queue_mode` is
    /// `steer` (act on it now) or `followup` (after the running turn).
    Send { workspace_id: u64, text: String, queue_mode: String },
    /// Abort the running turn of a workspace's agent.
    Abort { workspace_id: u64 },
    /// The run state of a workspace's agent, e.g. `running` or `idle`.
    AgentStatus { workspace_id: u64, status: String },
    /// Ask for a workspace's events after sequence number `last_seq`.
    Resume { workspace_id: u64, last_seq: u64 },
    /// One new event of a workspace's agent.
    AgentEvent { workspace_id: u64, seq: u64, event: String },
    /// Events missed while disconnected, oldest first, and the sequence
    /// number of the newest.
    ReplayBatch { workspace_id: u64, events: Vec<ReplayEntry>, latest_seq: u64 },
}

} // verus!
