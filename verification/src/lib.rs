//! Keeping a directory in step with the same directory of other peers.
//!
//! This library decides: which paths are followed, which peers are listened to, which changes are
//! told, applied or held back, and what is answered. What it decides on, the disk, the network
//! and the clock, is handed in as plain values, and what is to be done comes back as plain values.
//!
//! - [`message`] and [`ticket`]: what peers send each other
//! - [`send`], [`receive`], [`conflict`], [`watcher`], [`state`]: changes, out and in
//! - [`allowlist`], [`allowlist_blobs`], [`bootstrap_peers`], [`runtime`]: who takes part
//! - [`keystore`], [`paths`], [`pending_log`], [`atomic_write`]: what is kept on the disk
//! - [`daemon`], [`redact`], [`mcp`]: what the daemon is asked, and what it answers
//! - [`text`], [`path_text`], [`bytes`], [`hex`], [`table`], [`peer_id`], [`digest`]: the means
use crate::daemon::state::DaemonState;
use vstd::prelude::*;

pub mod allowlist;
pub mod allowlist_blobs;
pub mod atomic_write;
pub mod bootstrap_peers;
pub mod bytes;
pub mod conflict;
pub mod daemon;
pub mod digest;
pub mod hex;
pub mod keystore;
pub mod mcp;
pub mod message;
pub mod path_text;
pub mod paths;
pub mod peer_id;
pub mod pending_log;
pub mod receive;
pub mod redact;
pub mod runtime;
pub mod send;
pub mod state;
pub mod table;
pub mod text;
pub mod ticket;
pub mod watcher;

verus! {

/// What is known without a running daemon.
#[derive(Debug, Clone, PartialEq, Eq)]
pub struct HealthInfoStatic {
    /// Where the key of this endpoint is kept.
    pub key_path: String,
    /// Whether it is there.
    pub key_exists: bool,
    /// Where contents are stored.
    pub blobs_dir: String,
    /// Where received changes are recorded.
    pub pending_dir: String,
    /// The synchronised directory.
    pub watched_dir: Option<String>,
    /// Whether it is there.
    pub watched_dir_exists: bool,
}

/// What a running daemon knows.
#[derive(Debug, Clone, Copy, PartialEq, Eq)]
pub struct HealthInfoDynamic {
    /// The number of added peers.
    pub peer_count: u32,
    /// Whether every peer is allowed.
    pub open_all: bool,
    /// For how many seconds the daemon has been running.
    pub uptime_secs: u64,
    /// Whether there is a group secret.
    pub group_initialized: bool,
    /// Whether the group was joined.
    pub gossip_subscribed: bool,
    /// Whether the daemon has to be restarted to join the group.
    pub restart_required: bool,
}

/// How it stands with the daemon and its surroundings.
#[derive(Debug, Clone, PartialEq, Eq)]
pub struct HealthInfo {
    /// What is known without a running daemon.
    pub static_info: HealthInfoStatic,
    /// What a running daemon knows.
    pub dynamic_info: Option<HealthInfoDynamic>,
}

/// How it stands at `now` seconds: what is known without a daemon always, and what the daemon
/// knows where there is one.
pub fn run_health_check<S>(
    static_info: HealthInfoStatic,
    daemon_state: Option<&DaemonState<S>>,
    now: u64,
) -> (r: HealthInfo)
    ensures
        r.static_info == static_info,
        r.dynamic_info is Some <==> daemon_state is Some,
        r.dynamic_info matches Some(d) ==> ({
            let s = daemon_state->0;
            &&& d.peer_count == s.allowlist@.peers.dom().len() as u32
            &&& d.open_all == s.allowlist@.open_all
            &&& d.uptime_secs == if now >= s.started_at {
                (now - s.started_at) as u64
            } else {
                0
            }
            &&& d.group_initialized == s.gossip.status().spec_group_initialized()
            &&& d.gossip_subscribed == s.gossip.status().spec_gossip_subscribed()
            &&& d.restart_required == (d.group_initialized && !d.gossip_subscribed)
        }),
{
    let dynamic_info = match daemon_state {
        None => None,
        Some(s) => {
            let status = s.current_runtime_status();
            Some(
                HealthInfoDynamic {
                    peer_count: s.allowlist.len() as u32,
                    open_all: s.allowlist.is_open_all(),
                    uptime_secs: s.uptime_secs(now),
                    group_initialized: status.group_initialized(),
                    gossip_subscribed: status.gossip_subscribed(),
                    restart_required: status.restart_required(),
                },
            )
        },
    };
    HealthInfo { static_info, dynamic_info }
}

} // verus!
