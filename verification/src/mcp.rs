//! The tools that a model context server offers on top of the daemon.
use crate::daemon::dispatch::{route, Method};
use vstd::prelude::*;

verus! {

/// What is given along with an invitation.
#[derive(Debug, Clone, PartialEq, Eq)]
pub struct AcceptInviteParams {
    /// The ticket.
    pub ticket: String,
    /// A name for people.
    pub label: Option<String>,
}

/// What is given to allow a peer.
#[derive(Debug, Clone, PartialEq, Eq)]
pub struct AllowPeerParams {
    /// The identity of the peer.
    pub peer_id: String,
    /// A name for people.
    pub label: Option<String>,
}

/// What is given to allow a peer no longer.
#[derive(Debug, Clone, PartialEq, Eq)]
pub struct RevokeParams {
    /// The identity of the peer.
    pub peer_id: String,
}

/// What is given to list received changes.
#[derive(Debug, Clone, Copy, PartialEq, Eq)]
pub struct ListPendingParams {
    /// How many at most; all without it.
    pub limit: Option<usize>,
}

/// What is given to read the log.
#[derive(Debug, Clone, Copy, PartialEq, Eq)]
pub struct RecentLogParams {
    /// How many lines.
    pub lines: Option<u32>,
}

/// A tool.
#[derive(Debug, Clone, Copy, PartialEq, Eq)]
pub struct Tool {
    /// Its name.
    pub name: &'static str,
    /// What it is for.
    pub description: &'static str,
}

/// The names of the tools.
pub open spec fn tool_names() -> Seq<Seq<char>> {
    seq![
        "sync.ping"@,
        "sync.health-check"@,
        "sync.status"@,
        "sync.invite"@,
        "sync.accept-invite"@,
        "sync.allow-peer"@,
        "sync.list-peers"@,
        "sync.revoke"@,
        "sync.list-pending"@,
        "sync.recent-log"@,
    ]
}

/// What the tools are for, in the order of their names.
pub open spec fn tool_descriptions() -> Seq<Seq<char>> {
    seq![
        "Ping the MCP server itself (no daemon required)"@,
        "Check daemon liveness and config (paths, key, runtime status)"@,
        "Summary view: peer count, open_all, uptime, group state, recent pending"@,
        "Generate or reuse an invite ticket; first call needs daemon restart"@,
        "Adopt a peer's invite ticket; first call needs daemon restart"@,
        "Add a peer to the local allowlist (counter-half of bilateral allowlist)"@,
        "List currently allowed peers with last_seen_at (data-plane proxy)"@,
        "Remove a peer from the local allowlist (best-effort, no force-close)"@,
        "Return recent incoming change log entries (Upsert/Tombstone)"@,
        "Tail recent daemon log lines (secrets redacted)"@,
    ]
}

/// The tools.
pub fn tools() -> (out: Vec<Tool>)
    ensures
        out@.len() == tool_names().len(),
        forall|i: int|
            0 <= i < out@.len() ==> (#[trigger] out@[i]).name@ == tool_names()[i]
                && out@[i].description@ == tool_descriptions()[i],
{
    vec![
        Tool {
            name: "sync.ping",
            description: "Ping the MCP server itself (no daemon required)",
        },
        Tool {
            name: "sync.health-check",
            description: "Check daemon liveness and config (paths, key, runtime status)",
        },
        Tool {
            name: "sync.status",
            description: "Summary view: peer count, open_all, uptime, group state, recent pending",
        },
        Tool {
            name: "sync.invite",
            description: "Generate or reuse an invite ticket; first call needs daemon restart",
        },
        Tool {
            name: "sync.accept-invite",
            description: "Adopt a peer's invite ticket; first call needs daemon restart",
        },
        Tool {
            name: "sync.allow-peer",
            description:
                "Add a peer to the local allowlist (counter-half of bilateral allowlist)",
        },
        Tool {
            name: "sync.list-peers",
            description: "List currently allowed peers with last_seen_at (data-plane proxy)",
        },
        Tool {
            name: "sync.revoke",
            description: "Remove a peer from the local allowlist (best-effort, no force-close)",
        },
        Tool {
            name: "sync.list-pending",
            description: "Return recent incoming change log entries (Upsert/Tombstone)",
        },
        Tool {
            name: "sync.recent-log",
            description: "Tail recent daemon log lines (secrets redacted)",
        },
    ]
}

/// What is done when a tool is called.
#[derive(Debug, Clone, PartialEq, Eq)]
pub enum ToolCall {
    /// This is answered, without the daemon.
    Answer(&'static str),
    /// The daemon is asked.
    Ask(Method),
    /// There is no such tool, says this error.
    Unknown(String),
}

/// Decides what is done when a tool is called.
pub fn call_tool(name: &str) -> (r: ToolCall)
    ensures
        r matches ToolCall::Answer(text) ==> name@ == "sync.ping"@ && text@ == "pong"@,
        r matches ToolCall::Ask(m) ==> m.spec_name() == name@ && name@ != "sync.ping"@,
        r matches ToolCall::Unknown(e) ==> e@ == "unknown method: "@ + name@ && name@
            != "sync.ping"@ && forall|m: Method| (#[trigger] m.spec_name()) != name@,
{
    if *name == *"sync.ping" {
        return ToolCall::Answer("pong");
    }
    match route(name) {
        Ok(m) => ToolCall::Ask(m),
        Err(e) => ToolCall::Unknown(e),
    }
}

/// Beside the one that answers by itself, the tools are what the daemon can be asked.
pub proof fn law_tools_are_methods(m: Method, i: int)
    ensures
        tool_names().len() == 10,
        tool_names().contains(m.spec_name()),
        0 < i < tool_names().len() ==> exists|k: Method| (#[trigger] k.spec_name())
            == tool_names()[i],
{
    let names = tool_names();
    assert(names[1] == Method::HealthCheck.spec_name());
    assert(names[2] == Method::Status.spec_name());
    assert(names[3] == Method::Invite.spec_name());
    assert(names[4] == Method::AcceptInvite.spec_name());
    assert(names[5] == Method::AllowPeer.spec_name());
    assert(names[6] == Method::ListPeers.spec_name());
    assert(names[7] == Method::Revoke.spec_name());
    assert(names[8] == Method::ListPending.spec_name());
    assert(names[9] == Method::RecentLog.spec_name());
}

/// What a tool gives back.
#[derive(Debug, Clone, PartialEq, Eq)]
pub struct ToolResult {
    /// The text.
    pub text: String,
    /// Whether it is an error.
    pub is_error: bool,
}

/// What a tool gives back of the outcome of asking the daemon.
pub fn tool_result(outcome: Result<String, String>) -> (r: ToolResult)
    ensures
        match outcome {
            Ok(text) => r == (ToolResult { text, is_error: false }),
            Err(text) => r == (ToolResult { text, is_error: true }),
        },
{
    match outcome {
        Ok(text) => ToolResult { text, is_error: false },
        Err(text) => ToolResult { text, is_error: true },
    }
}

} // verus!
