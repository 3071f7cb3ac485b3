//! What the daemon knows while it runs.
use crate::allowlist::AllowList;
use crate::peer_id::PeerId;
use crate::receive::{OutcomeView, ReceiveOutcome};
use crate::state::{InitialBroadcasts, PendingTracker, SyncState};
use crate::table::Table;
use vstd::prelude::*;

verus! {

/// Where the daemon keeps things.
#[derive(Debug, Clone, PartialEq, Eq)]
pub struct DaemonPaths {
    /// The synchronised directory, resolved.
    pub watched_dir_canonical: String,
    /// The socket for requests.
    pub socket_path: String,
    /// The lock file.
    pub lock_path: String,
    /// The allowed peers.
    pub allowlist_path: String,
    /// The secret of the group.
    pub folder_secret_path: String,
    /// The key of this endpoint.
    pub key_path: String,
    /// The store of contents.
    pub blobs_dir: String,
    /// The log.
    pub log_path: String,
    /// The peers that are asked first.
    pub bootstrap_peers_path: String,
}

/// Whether there is a group, and whether it was joined.
#[derive(Debug, Clone, Copy, PartialEq, Eq, Structural)]
pub enum RuntimeStatus {
    /// There is no group secret.
    Uninitialized,
    /// There is a group secret, but the group was not joined: that takes a restart.
    InitializedButNotSubscribed,
    /// The group was joined.
    Active,
}

impl RuntimeStatus {
    /// There is a group secret.
    pub open spec fn spec_group_initialized(self) -> bool {
        self != RuntimeStatus::Uninitialized
    }

    /// The group was joined.
    pub open spec fn spec_gossip_subscribed(self) -> bool {
        self == RuntimeStatus::Active
    }

    /// There is a group secret, but the group was not joined.
    pub open spec fn spec_restart_required(self) -> bool {
        self == RuntimeStatus::InitializedButNotSubscribed
    }

    /// Whether there is a group secret.
    pub fn group_initialized(&self) -> (r: bool)
        ensures
            r == self.spec_group_initialized(),
    {
        match self {
            RuntimeStatus::Uninitialized => false,
            _ => true,
        }
    }

    /// Whether the group was joined.
    pub fn gossip_subscribed(&self) -> (r: bool)
        ensures
            r == self.spec_gossip_subscribed(),
    {
        match self {
            RuntimeStatus::Active => true,
            _ => false,
        }
    }

    /// Whether the daemon has to be restarted to join the group.
    pub fn restart_required(&self) -> (r: bool)
        ensures
            r == self.spec_restart_required(),
    {
        match self {
            RuntimeStatus::InitializedButNotSubscribed => true,
            _ => false,
        }
    }

    /// The status with which the daemon starts.
    pub fn at_start(has_secret: bool) -> (s: RuntimeStatus)
        ensures
            s == if has_secret {
                RuntimeStatus::Active
            } else {
                RuntimeStatus::Uninitialized
            },
    {
        if has_secret {
            RuntimeStatus::Active
        } else {
            RuntimeStatus::Uninitialized
        }
    }
}

/// A restart is required exactly where there is a group secret and the group was not joined; and
/// a group that was joined has a secret.
pub proof fn law_restart_required(s: RuntimeStatus)
    ensures
        s.spec_restart_required() <==> s.spec_group_initialized() && !s.spec_gossip_subscribed(),
        s.spec_gossip_subscribed() ==> s.spec_group_initialized(),
{
}

/// The status, with the handle for sending while the group is joined: there is one exactly then.
#[derive(Debug)]
pub struct GossipRuntime<S> {
    state: RuntimeStatus,
    handle: Option<S>,
}

impl<S> GossipRuntime<S> {
    #[verifier::type_invariant]
    spec fn inv(self) -> bool {
        self.handle is Some <==> self.state == RuntimeStatus::Active
    }

    /// Whether there is a group, and whether it was joined.
    pub closed spec fn status(&self) -> RuntimeStatus {
        self.state
    }

    /// The handle for sending to the group.
    pub closed spec fn sender(&self) -> Option<S> {
        self.handle
    }

    /// The group was not joined.
    pub fn idle(has_secret: bool) -> (g: GossipRuntime<S>)
        ensures
            g.status() == if has_secret {
                RuntimeStatus::InitializedButNotSubscribed
            } else {
                RuntimeStatus::Uninitialized
            },
            g.sender() is None,
    {
        if has_secret {
            GossipRuntime { state: RuntimeStatus::InitializedButNotSubscribed, handle: None }
        } else {
            GossipRuntime { state: RuntimeStatus::Uninitialized, handle: None }
        }
    }

    /// The group was joined; `sender` is the handle for sending to it.
    pub fn active(sender: S) -> (g: GossipRuntime<S>)
        ensures
            g.status() == RuntimeStatus::Active,
            g.sender() == Some(sender),
    {
        GossipRuntime { state: RuntimeStatus::Active, handle: Some(sender) }
    }

    /// Whether there is a group, and whether it was joined.
    pub fn current(&self) -> (s: RuntimeStatus)
        ensures
            s == self.status(),
            self.sender() is Some <==> self.status() == RuntimeStatus::Active,
    {
        proof {
            use_type_invariant(self);
        }
        self.state
    }

    /// The handle for sending to the group.
    pub fn handle(&self) -> (r: Option<&S>)
        ensures
            r is Some <==> self.status() == RuntimeStatus::Active,
            r matches Some(s) ==> Some(*s) == self.sender(),
    {
        proof {
            use_type_invariant(self);
        }
        match &self.handle {
            Some(s) => Some(s),
            None => None,
        }
    }
}

/// What the daemon knows while it runs. `S` is the handle for sending to the group.
#[derive(Debug)]
pub struct DaemonState<S> {
    /// Where it keeps things.
    pub paths: DaemonPaths,
    /// The allowed peers.
    pub allowlist: AllowList,
    /// Where received changes are recorded.
    pub pending: PendingTracker,
    /// The changes that it made or announced itself.
    pub sync_state: SyncState,
    /// The changes that wait for a first neighbour.
    pub waiting: InitialBroadcasts,
    /// The identity of this endpoint.
    pub self_endpoint_id: PeerId,
    /// Whether there is a group, and whether it was joined.
    pub gossip: GossipRuntime<S>,
    /// When the daemon started, in seconds.
    pub started_at: u64,
    /// When data was last exchanged with peers, in seconds since 1970.
    pub last_seen: Table<PeerId, i64>,
}

/// The times at which peers were seen, after a peer was seen at `now`: a time only gives way to
/// a later one, and one that is not after 1970 is not noted.
pub open spec fn seen_at(seen: Map<Seq<u8>, i64>, peer: Seq<u8>, now: i64) -> Map<Seq<u8>, i64> {
    let known: i64 = if seen.dom().contains(peer) {
        seen[peer]
    } else {
        0
    };
    if now > known {
        seen.insert(peer, now)
    } else {
        seen
    }
}

/// The time at which a peer was last seen never goes back, and is that of the latest note.
pub proof fn law_last_seen_is_latest(seen: Map<Seq<u8>, i64>, peer: Seq<u8>, a: i64, b: i64)
    requires
        a > 0,
        b > 0,
    ensures
        ({
            let after = seen_at(seen_at(seen, peer, a), peer, b);
            &&& after.dom().contains(peer)
            &&& after[peer] >= a && after[peer] >= b
            &&& seen.dom().contains(peer) ==> after[peer] >= seen[peer]
            &&& after == seen_at(seen_at(seen, peer, b), peer, a)
        }),
{
    let x = seen_at(seen_at(seen, peer, a), peer, b);
    let y = seen_at(seen_at(seen, peer, b), peer, a);
    assert(x =~= y);
}

impl<S> DaemonState<S> {
    /// The state of a daemon that has just started, at `now` seconds.
    pub fn new(
        paths: DaemonPaths,
        allowlist: AllowList,
        pending: PendingTracker,
        sync_state: SyncState,
        self_endpoint_id: PeerId,
        sender: Option<S>,
        status: RuntimeStatus,
        now: u64,
    ) -> (d: DaemonState<S>)
        requires
            sender is Some <==> status == RuntimeStatus::Active,
        ensures
            d.paths == paths,
            d.allowlist == allowlist,
            d.pending == pending,
            d.sync_state == sync_state,
            d.self_endpoint_id == self_endpoint_id,
            d.gossip.status() == status,
            d.gossip.sender() == sender,
            d.started_at == now,
            d.last_seen@ == Map::<Seq<u8>, i64>::empty(),
            !d.waiting@.joined && d.waiting@.queue.len() == 0,
    {
        let gossip = match sender {
            Some(s) => GossipRuntime::active(s),
            None => {
                match status {
                    RuntimeStatus::Uninitialized => GossipRuntime::idle(false),
                    _ => GossipRuntime::idle(true),
                }
            },
        };
        DaemonState {
            paths,
            allowlist,
            pending,
            sync_state,
            waiting: InitialBroadcasts::new(),
            self_endpoint_id,
            gossip,
            started_at: now,
            last_seen: Table::new(),
        }
    }

    /// For how many seconds the daemon has been running.
    pub fn uptime_secs(&self, now: u64) -> (r: u64)
        ensures
            r == if now >= self.started_at {
                (now - self.started_at) as u64
            } else {
                0
            },
    {
        if now >= self.started_at {
            now - self.started_at
        } else {
            0
        }
    }

    /// Notes that data was exchanged with a peer, at `now` seconds since 1970.
    pub fn mark_peer_seen(&mut self, peer: PeerId, now: i64)
        ensures
            final(self).last_seen@ == seen_at(old(self).last_seen@, peer@, now),
            *final(self) == (DaemonState { last_seen: final(self).last_seen, ..*old(self) }),
    {
        let known: i64 = match self.last_seen.get(&peer) {
            Some(t) => *t,
            None => 0,
        };
        if now > known {
            let _ = self.last_seen.insert(peer, now);
        }
    }

    /// Notes what became of a change of a peer: data was exchanged exactly where it was applied.
    pub fn note_outcome(&mut self, peer: PeerId, outcome: &ReceiveOutcome, now: i64)
        ensures
            final(self).last_seen@ == if outcome@ == OutcomeView::Applied {
                seen_at(old(self).last_seen@, peer@, now)
            } else {
                old(self).last_seen@
            },
            *final(self) == (DaemonState { last_seen: final(self).last_seen, ..*old(self) }),
    {
        match outcome {
            ReceiveOutcome::Applied => self.mark_peer_seen(peer, now),
            ReceiveOutcome::Skipped { .. } => {},
        }
    }

    /// Notes that contents were served to a peer: data was exchanged exactly where that went
    /// well.
    pub fn note_served(&mut self, peer: PeerId, ok: bool, now: i64)
        ensures
            final(self).last_seen@ == if ok {
                seen_at(old(self).last_seen@, peer@, now)
            } else {
                old(self).last_seen@
            },
            *final(self) == (DaemonState { last_seen: final(self).last_seen, ..*old(self) }),
    {
        if ok {
            self.mark_peer_seen(peer, now);
        }
    }

    /// When data was last exchanged with a peer.
    pub fn last_seen_at(&self, peer: &PeerId) -> (r: Option<i64>)
        ensures
            r is Some <==> self.last_seen@.dom().contains(peer@),
            r matches Some(t) ==> t == self.last_seen@[peer@],
    {
        match self.last_seen.get(peer) {
            Some(t) => Some(*t),
            None => None,
        }
    }

    /// Whether there is a group, and whether it was joined.
    pub fn current_runtime_status(&self) -> (s: RuntimeStatus)
        ensures
            s == self.gossip.status(),
    {
        self.gossip.current()
    }

    /// A group secret was made or taken over; the group is joined after a restart.
    pub fn enter_initialized_but_not_subscribed(&mut self)
        ensures
            final(self).gossip.status() == RuntimeStatus::InitializedButNotSubscribed,
            final(self).gossip.sender() is None,
            *final(self) == (DaemonState { gossip: final(self).gossip, ..*old(self) }),
    {
        self.gossip = GossipRuntime::idle(true);
    }

    /// The group was joined; `sender` is the handle for sending to it.
    pub fn enter_active(&mut self, sender: S)
        ensures
            final(self).gossip.status() == RuntimeStatus::Active,
            final(self).gossip.sender() == Some(sender),
            *final(self) == (DaemonState { gossip: final(self).gossip, ..*old(self) }),
    {
        self.gossip = GossipRuntime::active(sender);
    }

    /// There is no group secret any more.
    pub fn enter_uninitialized(&mut self)
        ensures
            final(self).gossip.status() == RuntimeStatus::Uninitialized,
            final(self).gossip.sender() is None,
            *final(self) == (DaemonState { gossip: final(self).gossip, ..*old(self) }),
    {
        self.gossip = GossipRuntime::idle(false);
    }

    /// A copy of the handle for sending to the group; there is one exactly while the group is
    /// joined.
    pub fn gossip_sender_cloned(&self) -> (r: Option<S>) where S: Clone
        ensures
            r is Some <==> self.gossip.status() == RuntimeStatus::Active,
            r matches Some(s) ==> (self.gossip.sender() matches Some(h) && cloned(h, s)),
    {
        match self.gossip.handle() {
            Some(s) => Some(s.clone()),
            None => None,
        }
    }
}

/// Data that is exchanged with one peer says nothing of another, and what is noted of a peer for the
/// first time is the time itself.
pub proof fn law_peers_are_seen_apart(
    seen: Map<Seq<u8>, i64>,
    peer: Seq<u8>,
    other: Seq<u8>,
    now: i64,
)
    requires
        other != peer,
    ensures
        seen_at(seen, peer, now).dom().contains(other) <==> seen.dom().contains(other),
        seen_at(seen, peer, now)[other] == seen[other],
        !seen.dom().contains(peer) && now > 0 ==> seen_at(seen, peer, now).dom().contains(peer)
            && seen_at(seen, peer, now)[peer] == now,
        seen.dom().contains(peer) && now > seen[peer] ==> seen_at(seen, peer, now)[peer] == now,
        seen.dom().contains(peer) && now <= seen[peer] ==> seen_at(seen, peer, now) == seen,
{
}

} // verus!
