//! What the daemon is asked, and what it answers.
use crate::allowlist::{stores, undone, AddUndo, AllowSnapshot, AllowView, PeerInfo};
use crate::atomic_write::AtomicWrite;
use crate::bootstrap_peers::{
    add_or_replace, added_or_replaced, bootstrap_snapshot, lemma_added_is_there,
    load_bootstrap_peers, BootstrapSnapshot, BootstrapVersion, BOOTSTRAP_SCHEMA_VERSION,
};
use crate::daemon::state::{DaemonState, RuntimeStatus};
use crate::hex::hex_text;
use crate::keystore::{
    generate_and_persist_folder_secret, persist_folder_secret, try_load_folder_secret, FileRead,
    KeystoreError, FOLDER_SECRET_BYTES, SECRET_PREFIX,
};
use crate::path_text::parent_path;
use crate::peer_id::{parsed_endpoint_key, PeerId};
use crate::pending_log::{
    limit_pending, list_pending, newest_first, received_when, PendingEntry,
};
use crate::redact::{last_ones, lines_of, redacted_line, tail_lines_redacted};
use crate::runtime::topic_of;
use crate::table::entries_map;
use crate::text::{same_bytes, texts};
use crate::ticket::{
    decoded_ticket, encoded_ticket, is_ticket_text, EndpointTicket, InviteTicket, TicketError,
    TicketProblem, TicketView,
};
use vstd::prelude::*;

verus! {

/// What the daemon can be asked.
#[derive(Debug, Clone, Copy, PartialEq, Eq, Structural)]
pub enum Method {
    /// Whether it is well.
    HealthCheck,
    /// How it stands.
    Status,
    /// A ticket that invites a peer.
    Invite,
    /// To follow an invitation.
    AcceptInvite,
    /// To allow a peer.
    AllowPeer,
    /// Which peers are allowed.
    ListPeers,
    /// To allow a peer no longer.
    Revoke,
    /// Which changes were received.
    ListPending,
    /// The last lines of its log.
    RecentLog,
}

impl Method {
    /// The name under which it is asked.
    pub open spec fn spec_name(self) -> Seq<char> {
        match self {
            Method::HealthCheck => "sync.health-check"@,
            Method::Status => "sync.status"@,
            Method::Invite => "sync.invite"@,
            Method::AcceptInvite => "sync.accept-invite"@,
            Method::AllowPeer => "sync.allow-peer"@,
            Method::ListPeers => "sync.list-peers"@,
            Method::Revoke => "sync.revoke"@,
            Method::ListPending => "sync.list-pending"@,
            Method::RecentLog => "sync.recent-log"@,
        }
    }

    /// The name under which it is asked.
    pub fn name(self) -> (r: &'static str)
        ensures
            r@ == self.spec_name(),
    {
        match self {
            Method::HealthCheck => "sync.health-check",
            Method::Status => "sync.status",
            Method::Invite => "sync.invite",
            Method::AcceptInvite => "sync.accept-invite",
            Method::AllowPeer => "sync.allow-peer",
            Method::ListPeers => "sync.list-peers",
            Method::Revoke => "sync.revoke",
            Method::ListPending => "sync.list-pending",
            Method::RecentLog => "sync.recent-log",
        }
    }
}

/// What is asked under a name; the error names what is not known.
pub fn route(method: &str) -> (r: Result<Method, String>)
    ensures
        r matches Ok(m) ==> m.spec_name() == method@,
        r matches Err(e) ==> e@ == "unknown method: "@ + method@ && forall|m: Method|
            (#[trigger] m.spec_name()) != method@,
{
    if *method == *"sync.health-check" {
        Ok(Method::HealthCheck)
    } else if *method == *"sync.status" {
        Ok(Method::Status)
    } else if *method == *"sync.invite" {
        Ok(Method::Invite)
    } else if *method == *"sync.accept-invite" {
        Ok(Method::AcceptInvite)
    } else if *method == *"sync.allow-peer" {
        Ok(Method::AllowPeer)
    } else if *method == *"sync.list-peers" {
        Ok(Method::ListPeers)
    } else if *method == *"sync.revoke" {
        Ok(Method::Revoke)
    } else if *method == *"sync.list-pending" {
        Ok(Method::ListPending)
    } else if *method == *"sync.recent-log" {
        Ok(Method::RecentLog)
    } else {
        Err("unknown method: ".to_owned().concat(method))
    }
}

/// How the daemon stands.
#[derive(Debug, Clone, PartialEq, Eq)]
pub struct StatusReply {
    /// The synchronised directory.
    pub watched_dir: String,
    /// The number of added peers.
    pub peer_count: u32,
    /// Whether every peer is allowed.
    pub open_all: bool,
    /// The number of recorded changes.
    pub recent_pending_count: usize,
    /// Whether the key of this endpoint is there.
    pub key_exists: bool,
    /// For how many seconds the daemon has been running.
    pub uptime_secs: u64,
    /// Whether there is a group secret.
    pub group_initialized: bool,
    /// Whether the group was joined.
    pub gossip_subscribed: bool,
    /// Whether the daemon has to be restarted to join the group.
    pub restart_required: bool,
}

/// How the daemon stands at `now` seconds: `pending` is the number of recorded changes, where
/// they could be read.
pub fn status<S>(daemon: &DaemonState<S>, pending: Option<usize>, key_exists: bool, now: u64) -> (r:
    StatusReply)
    ensures
        r.watched_dir@ == daemon.paths.watched_dir_canonical@,
        r.peer_count == daemon.allowlist@.peers.dom().len() as u32,
        r.open_all == daemon.allowlist@.open_all,
        r.recent_pending_count == match pending {
            Some(n) => n,
            None => 0,
        },
        r.key_exists == key_exists,
        r.uptime_secs == if now >= daemon.started_at {
            (now - daemon.started_at) as u64
        } else {
            0
        },
        r.group_initialized == daemon.gossip.status().spec_group_initialized(),
        r.gossip_subscribed == daemon.gossip.status().spec_gossip_subscribed(),
        r.restart_required == daemon.gossip.status().spec_restart_required(),
{
    let status = daemon.current_runtime_status();
    let recent_pending_count: usize = match pending {
        Some(n) => n,
        None => 0,
    };
    StatusReply {
        watched_dir: daemon.paths.watched_dir_canonical.clone(),
        peer_count: daemon.allowlist.len() as u32,
        open_all: daemon.allowlist.is_open_all(),
        recent_pending_count,
        key_exists,
        uptime_secs: daemon.uptime_secs(now),
        group_initialized: status.group_initialized(),
        gossip_subscribed: status.gossip_subscribed(),
        restart_required: status.restart_required(),
    }
}

/// The secret with which is invited.
#[derive(Debug, Clone, PartialEq, Eq)]
pub struct InvitePlan {
    /// The secret of the group.
    pub folder_secret: [u8; 16],
    /// The file to be written first, where the secret is new.
    pub write: Option<AtomicWrite>,
}

/// The secret with which is invited: the one that there is, and else a new one.
pub fn begin_invite(secret_path: &str, read: FileRead) -> (r: Result<InvitePlan, KeystoreError>)
    ensures
        match read {
            FileRead::Bytes(bytes) => if bytes@.len() == FOLDER_SECRET_BYTES {
                r matches Ok(p) && p.folder_secret@ == bytes@ && p.write is None
            } else {
                r matches Err(KeystoreError::Size { path, got, expected }) && path@ == secret_path@
                    && got == bytes@.len() && expected == FOLDER_SECRET_BYTES
            },
            FileRead::Missing => {
                &&& r is Ok <==> parent_path(secret_path@) is Some
                &&& r matches Ok(p) ==> (p.write matches Some(w) && Some(w.dir@) == parent_path(
                    secret_path@,
                ) && w.private && w.prefix@ == SECRET_PREFIX@ && w.target@ == secret_path@
                    && w.content@ == p.folder_secret@)
                &&& r matches Err(e) ==> (e matches KeystoreError::NoParent(n) && n.target@
                    == secret_path@)
            },
            FileRead::Failed(why) => r matches Err(KeystoreError::Read { path, reason }) && path@
                == secret_path@ && reason@ == why@,
        },
{
    match try_load_folder_secret(secret_path, read) {
        Err(e) => Err(e),
        Ok(Some(folder_secret)) => Ok(InvitePlan { folder_secret, write: None }),
        Ok(None) => {
            match generate_and_persist_folder_secret(secret_path) {
                Ok((folder_secret, w)) => Ok(InvitePlan { folder_secret, write: Some(w) }),
                Err(e) => Err(e),
            }
        },
    }
}

/// An invitation.
#[derive(Debug, Clone, PartialEq, Eq)]
pub struct InviteReply {
    /// The ticket.
    pub ticket: String,
    /// Whether the daemon has to be restarted to join the group.
    pub restart_required: bool,
}

/// The status after a group secret was written, or after none had to be.
pub open spec fn status_after(s: RuntimeStatus, written: bool) -> RuntimeStatus {
    if written {
        RuntimeStatus::InitializedButNotSubscribed
    } else {
        s
    }
}

/// The invitation, after the file of the plan was written if there is one. `endpoint` is how
/// this endpoint is reached.
pub fn finish_invite<S>(
    daemon: &mut DaemonState<S>,
    plan: &InvitePlan,
    endpoint: EndpointTicket,
) -> (r: Result<InviteReply, TicketError>)
    ensures
        final(daemon).gossip.status() == status_after(
            old(daemon).gossip.status(),
            plan.write is Some,
        ),
        plan.write is Some ==> final(daemon).gossip.sender() is None,
        plan.write is None ==> final(daemon).gossip == old(daemon).gossip,
        *final(daemon) == (DaemonState { gossip: final(daemon).gossip, ..*old(daemon) }),
        r is Ok,
        r matches Ok(reply) ==> reply.ticket@ == encoded_ticket(
            (TicketView {
                endpoint: endpoint.spec_text(),
                id: endpoint.spec_id(),
                folder_secret: plan.folder_secret@,
            }),
        ) && reply.restart_required == final(daemon).gossip.status().spec_restart_required(),
        is_ticket_text(endpoint.spec_text(), endpoint.spec_id()) ==> (r matches Ok(reply) && (
        decoded_ticket(reply.ticket@) matches Ok(t) && t.endpoint == endpoint.spec_text() && t.id
            == endpoint.spec_id() && t.folder_secret == plan.folder_secret@)),
{
    match &plan.write {
        Some(_) => daemon.enter_initialized_but_not_subscribed(),
        None => {},
    }
    let invite = InviteTicket::new(endpoint, plan.folder_secret);
    match invite.encode() {
        Ok(ticket) => {
            let status = daemon.current_runtime_status();
            Ok(InviteReply { ticket, restart_required: status.restart_required() })
        },
        Err(e) => Err(e),
    }
}

/// Why an invitation is not followed.
#[derive(Debug, Clone, PartialEq, Eq)]
pub enum AcceptError {
    /// The ticket is none.
    Ticket(TicketError),
    /// The secret of the group cannot be read or written.
    Keystore(KeystoreError),
    /// There is another group already.
    OtherGroup {
        /// Where its secret is kept.
        path: String,
    },
}

impl AcceptError {
    /// The text of the error.
    pub open spec fn message_text(&self) -> Seq<char> {
        match self {
            AcceptError::Ticket(e) => e.message_text(),
            AcceptError::Keystore(e) => e.message_text(),
            AcceptError::OtherGroup { path } =>
                "this daemon is already initialized with a different folder_secret; delete "@
                + path@ + " to reset"@,
        }
    }

    /// The text of the error.
    pub fn message(&self) -> (r: String)
        ensures
            r@ == self.message_text(),
    {
        match self {
            AcceptError::Ticket(e) => e.message(),
            AcceptError::Keystore(e) => e.message(),
            AcceptError::OtherGroup { path } => {
                "this daemon is already initialized with a different folder_secret; delete ".to_owned().concat(
                path.as_str()).concat(" to reset")
            },
        }
    }
}

/// An invitation that is followed.
#[derive(Debug, Clone, PartialEq, Eq)]
pub struct AcceptPlan {
    /// The invitation.
    pub invite: InviteTicket,
    /// The file to be written first, where the secret is taken over.
    pub write: Option<AtomicWrite>,
}

/// What is done with the secret of an invitation, by what was read of the present secret: it is
/// taken over where there is none, and nothing is done where it is the same.
pub open spec fn accepts(
    r: Result<AcceptPlan, AcceptError>,
    t: TicketView,
    secret_path: Seq<char>,
    read: FileRead,
) -> bool {
    match read {
        FileRead::Missing => if parent_path(secret_path) is Some {
            r matches Ok(p) && p.invite@ == t && (p.write matches Some(w) && Some(w.dir@)
                == parent_path(secret_path) && w.private && w.prefix@ == SECRET_PREFIX@ && w.target@
                == secret_path && w.content@ == t.folder_secret)
        } else {
            r matches Err(AcceptError::Keystore(KeystoreError::NoParent(e))) && e.target@
                == secret_path
        },
        FileRead::Bytes(bytes) => if bytes@.len() != FOLDER_SECRET_BYTES {
            r matches Err(AcceptError::Keystore(KeystoreError::Size { path, got, expected }))
                && path@ == secret_path && got == bytes@.len() && expected == FOLDER_SECRET_BYTES
        } else if bytes@ == t.folder_secret {
            r matches Ok(p) && p.invite@ == t && p.write is None
        } else {
            r matches Err(AcceptError::OtherGroup { path }) && path@ == secret_path
        },
        FileRead::Failed(why) => r matches Err(
            AcceptError::Keystore(KeystoreError::Read { path, reason }),
        ) && path@ == secret_path && reason@ == why@,
    }
}

/// What is done with a decoded invitation.
pub fn accept_decoded(invite: InviteTicket, secret_path: &str, read: FileRead) -> (r: Result<
    AcceptPlan,
    AcceptError,
>)
    ensures
        accepts(r, invite@, secret_path@, read),
{
    match try_load_folder_secret(secret_path, read) {
        Err(e) => Err(AcceptError::Keystore(e)),
        Ok(None) => {
            match persist_folder_secret(secret_path, &invite.folder_secret) {
                Ok(w) => Ok(AcceptPlan { invite, write: Some(w) }),
                Err(e) => Err(AcceptError::Keystore(e)),
            }
        },
        Ok(Some(existing)) => {
            if same_bytes(&existing, &invite.folder_secret) {
                Ok(AcceptPlan { invite, write: None })
            } else {
                Err(AcceptError::OtherGroup { path: secret_path.to_owned() })
            }
        },
    }
}

/// Follows an invitation, up to what has to be written first.
pub fn begin_accept_invite(ticket: &str, secret_path: &str, read: FileRead) -> (r: Result<
    AcceptPlan,
    AcceptError,
>)
    ensures
        match decoded_ticket(ticket@) {
            Err(problem) => r matches Err(AcceptError::Ticket(e)) && e@ == problem,
            Ok(t) => accepts(r, t, secret_path@, read),
        },
{
    match InviteTicket::decode(ticket) {
        Err(e) => Err(AcceptError::Ticket(e)),
        Ok(invite) => accept_decoded(invite, secret_path, read),
    }
}

/// A daemon without a group that follows an invitation takes over the secret of the inviting
/// peer, and so joins the same topic.
pub proof fn law_invited_peer_joins_the_topic(
    invite: TicketView,
    r: Result<AcceptPlan, AcceptError>,
    secret_path: Seq<char>,
)
    requires
        parent_path(secret_path) is Some,
        accepts(r, invite, secret_path, FileRead::Missing),
    ensures
        r matches Ok(p) && (p.write matches Some(w) && topic_of(w.content@) == topic_of(
            invite.folder_secret,
        )),
{
}

/// An invitation that was followed.
#[derive(Debug, Clone, PartialEq, Eq)]
pub struct AcceptReply {
    /// The identity of the peer that invited.
    pub peer_id: String,
    /// A name for people.
    pub label: Option<String>,
    /// The identity of this endpoint.
    pub my_peer_id: String,
    /// Whether the daemon has to be restarted to join the group.
    pub restart_required: bool,
}

/// A change of the allowed peers that has to be stored; it is taken back where that fails.
#[derive(Debug)]
pub struct UnsavedAdd {
    /// What takes it back.
    pub undo: AddUndo,
    /// What has to be stored.
    pub snapshot: AllowSnapshot,
}

/// The change added `id` to `before`, and what has to be stored are the allowed peers of the
/// daemon.
pub open spec fn unsaved<S>(
    u: UnsavedAdd,
    daemon: &DaemonState<S>,
    id: Seq<u8>,
    before: AllowView,
) -> bool {
    &&& u.undo.spec_id() == id
    &&& u.undo.before() == before
    &&& u.snapshot.open_all == daemon.allowlist@.open_all
    &&& stores(u.snapshot, daemon.allowlist.listed())
    &&& daemon.allowlist@.peers == entries_map(daemon.allowlist.listed())
}

fn copy_label(label: &Option<String>) -> (r: Option<String>)
    ensures
        r == *label,
{
    match label {
        Some(text) => Some(text.clone()),
        None => None,
    }
}

/// Follows an invitation, after the file of the plan was written if there is one: the peer that
/// invited is allowed.
pub fn adopt_invite<S>(
    daemon: &mut DaemonState<S>,
    plan: &AcceptPlan,
    label: Option<String>,
    now: i64,
) -> (r: (AcceptReply, UnsavedAdd))
    ensures
        final(daemon).gossip.status() == status_after(
            old(daemon).gossip.status(),
            plan.write is Some,
        ),
        plan.write is Some ==> final(daemon).gossip.sender() is None,
        plan.write is None ==> final(daemon).gossip == old(daemon).gossip,
        final(daemon).allowlist@ == old(daemon).allowlist@.with(
            plan.invite@.id,
            PeerInfo { label, added_at: now, last_seen_at: None },
        ),
        *final(daemon) == (DaemonState {
            gossip: final(daemon).gossip,
            allowlist: final(daemon).allowlist,
            ..*old(daemon)
        }),
        unsaved(r.1, final(daemon), plan.invite@.id, old(daemon).allowlist@),
        r.0.peer_id@ == hex_text(plan.invite@.id),
        r.0.label == label,
        r.0.my_peer_id@ == hex_text(old(daemon).self_endpoint_id@),
        r.0.restart_required == (plan.write is Some),
{
    let restart_required = match &plan.write {
        Some(_) => {
            daemon.enter_initialized_but_not_subscribed();
            true
        },
        None => false,
    };
    let inviter = plan.invite.endpoint.id();
    let info = PeerInfo::new(copy_label(&label), now);
    let undo = daemon.allowlist.begin_add(inviter, info);
    let snapshot = daemon.allowlist.snapshot();
    let reply = AcceptReply {
        peer_id: inviter.text(),
        label,
        my_peer_id: daemon.self_endpoint_id.text(),
        restart_required,
    };
    (reply, UnsavedAdd { undo, snapshot })
}

/// The stored form of the peers that are asked first, after an invitation was followed: the peer
/// that invited is one of them. `stored` is the stored form before.
pub fn remember_inviter(stored: Option<BootstrapSnapshot>, plan: &AcceptPlan) -> (r: Result<
    BootstrapSnapshot,
    BootstrapVersion,
>)
    ensures
        match stored {
            None => r matches Ok(s) && s.version == BOOTSTRAP_SCHEMA_VERSION && s.peers@
                == added_or_replaced(Seq::empty(), plan.invite.endpoint),
            Some(was) => if was.version == BOOTSTRAP_SCHEMA_VERSION {
                r matches Ok(s) && s.version == BOOTSTRAP_SCHEMA_VERSION && s.peers@
                    == added_or_replaced(was.peers@, plan.invite.endpoint)
            } else {
                r matches Err(e) && e.got == was.version
            },
        },
        r matches Ok(s) ==> s.peers@.contains(plan.invite.endpoint),
{
    match load_bootstrap_peers(stored) {
        Err(e) => Err(e),
        Ok(peers) => {
            let mut peers: Vec<EndpointTicket> = peers;
            proof {
                if stored is None {
                    assert(peers@ =~= Seq::<EndpointTicket>::empty());
                }
                lemma_added_is_there(peers@, plan.invite.endpoint);
            }
            add_or_replace(&mut peers, plan.invite.endpoint.clone());
            Ok(bootstrap_snapshot(peers))
        },
    }
}

/// Ends a change of the allowed peers: where it could not be stored, it is taken back.
pub fn settle_add<S>(daemon: &mut DaemonState<S>, undo: AddUndo, saved: bool)
    ensures
        saved ==> *final(daemon) == *old(daemon),
        !saved ==> final(daemon).allowlist@ == undone(
            old(daemon).allowlist@,
            undo.spec_id(),
            undo.before(),
        ),
        *final(daemon) == (DaemonState { allowlist: final(daemon).allowlist, ..*old(daemon) }),
{
    if !saved {
        daemon.allowlist.undo_add(undo);
    }
}

/// The text of the error for a text that is no identity of a peer.
pub open spec fn invalid_peer_text(text: Seq<char>, reason: Seq<char>) -> Seq<char> {
    "invalid peer_id '"@ + text + "': "@ + reason
}

fn invalid_peer(text: &str, reason: &str) -> (r: String)
    ensures
        r@ == invalid_peer_text(text@, reason@),
{
    "invalid peer_id '".to_owned().concat(text).concat("': ").concat(reason)
}

/// A peer that was to be allowed.
#[derive(Debug, Clone, PartialEq, Eq)]
pub struct AllowReply {
    /// Whether it was not allowed by itself before.
    pub added: bool,
    /// The text of its identity, as it was given.
    pub peer_id: String,
    /// A name for people.
    pub label: Option<String>,
}

/// Allows a peer whose identity is known.
pub fn allow_known_peer<S>(
    daemon: &mut DaemonState<S>,
    id: PeerId,
    peer_id: &str,
    label: Option<String>,
    now: i64,
) -> (r: (AllowReply, Option<UnsavedAdd>))
    ensures
        ({
            let already = old(daemon).allowlist@.allows(id@) && !old(daemon).allowlist@.open_all;
            &&& r.0.added == !already
            &&& r.0.peer_id@ == peer_id@
            &&& r.0.label == label
            &&& already ==> r.1 is None && *final(daemon) == *old(daemon)
            &&& !already ==> final(daemon).allowlist@ == old(daemon).allowlist@.with(
                id@,
                PeerInfo { label, added_at: now, last_seen_at: None },
            ) && (r.1 matches Some(u) && unsaved(u, final(daemon), id@, old(daemon).allowlist@))
        }),
        *final(daemon) == (DaemonState { allowlist: final(daemon).allowlist, ..*old(daemon) }),
{
    let already = daemon.allowlist.contains(&id) && !daemon.allowlist.is_open_all();
    let change = if already {
        None
    } else {
        let info = PeerInfo::new(copy_label(&label), now);
        let undo = daemon.allowlist.begin_add(id, info);
        let snapshot = daemon.allowlist.snapshot();
        Some(UnsavedAdd { undo, snapshot })
    };
    (AllowReply { added: !already, peer_id: peer_id.to_owned(), label }, change)
}

/// Allows a peer. One that is allowed by itself already is left as it is.
pub fn allow_peer<S>(
    daemon: &mut DaemonState<S>,
    peer_id: &str,
    label: Option<String>,
    now: i64,
) -> (r: Result<(AllowReply, Option<UnsavedAdd>), String>)
    ensures
        match parsed_endpoint_key(peer_id@) {
            Err(reason) => r matches Err(e) && e@ == invalid_peer_text(peer_id@, reason)
                && *final(daemon) == *old(daemon),
            Ok(id) => {
                let already = old(daemon).allowlist@.allows(id)
                    && !old(daemon).allowlist@.open_all;
                &&& r matches Ok(done) && done.0.added == !already && done.0.peer_id@ == peer_id@
                    && done.0.label == label && (already ==> done.1 is None) && (!already ==> (
                done.1 matches Some(u) && unsaved(u, final(daemon), id, old(daemon).allowlist@)))
                &&& final(daemon).allowlist@ == if already {
                    old(daemon).allowlist@
                } else {
                    old(daemon).allowlist@.with(
                        id,
                        PeerInfo { label, added_at: now, last_seen_at: None },
                    )
                }
            },
        },
        *final(daemon) == (DaemonState { allowlist: final(daemon).allowlist, ..*old(daemon) }),
{
    match PeerId::parse(peer_id) {
        Err(reason) => Err(invalid_peer(peer_id, reason.as_str())),
        Ok(id) => Ok(allow_known_peer(daemon, id, peer_id, label, now)),
    }
}

/// A peer that was to be allowed no longer.
#[derive(Debug, Clone, PartialEq, Eq)]
pub struct RevokeReply {
    /// Whether it had been added.
    pub removed: bool,
    /// The text of its identity, as it was given.
    pub peer_id: String,
}

/// The removal of a peer that has to be stored; it is taken back where that fails.
#[derive(Debug)]
pub struct UnsavedRemoval {
    /// The peer.
    pub id: PeerId,
    /// What was known of it.
    pub prev: Option<PeerInfo>,
    /// What has to be stored.
    pub snapshot: AllowSnapshot,
}

/// Takes a peer away.
pub fn revoke<S>(daemon: &mut DaemonState<S>, peer_id: &str) -> (r: Result<
    (RevokeReply, UnsavedRemoval),
    String,
>)
    ensures
        match parsed_endpoint_key(peer_id@) {
            Err(reason) => r matches Err(e) && e@ == invalid_peer_text(peer_id@, reason)
                && *final(daemon) == *old(daemon),
            Ok(id) => {
                &&& final(daemon).allowlist@ == old(daemon).allowlist@.without(id)
                &&& r matches Ok(done) && done.0.peer_id@ == peer_id@ && done.0.removed
                    == old(daemon).allowlist@.peers.dom().contains(id) && done.1.id@ == id && (
                done.1.prev is Some <==> done.0.removed) && (done.1.prev matches Some(info)
                    ==> info == old(daemon).allowlist@.peers[id]) && done.1.snapshot.open_all
                    == final(daemon).allowlist@.open_all && stores(
                    done.1.snapshot,
                    final(daemon).allowlist.listed(),
                ) && final(daemon).allowlist@.peers == entries_map(
                    final(daemon).allowlist.listed(),
                )
            },
        },
        *final(daemon) == (DaemonState { allowlist: final(daemon).allowlist, ..*old(daemon) }),
{
    match PeerId::parse(peer_id) {
        Err(reason) => Err(invalid_peer(peer_id, reason.as_str())),
        Ok(id) => {
            let prev = daemon.allowlist.remove(&id);
            let snapshot = daemon.allowlist.snapshot();
            let removed = prev.is_some();
            Ok(
                (
                    RevokeReply { removed, peer_id: peer_id.to_owned() },
                    UnsavedRemoval { id, prev, snapshot },
                ),
            )
        },
    }
}

/// Ends the removal of a peer: where it could not be stored, it is taken back.
pub fn settle_revoke<S>(
    daemon: &mut DaemonState<S>,
    id: PeerId,
    prev: Option<PeerInfo>,
    saved: bool,
)
    ensures
        final(daemon).allowlist@ == if saved || prev is None {
            old(daemon).allowlist@
        } else {
            (AllowView {
                peers: old(daemon).allowlist@.peers.insert(id@, prev->0),
                ..old(daemon).allowlist@
            })
        },
        *final(daemon) == (DaemonState { allowlist: final(daemon).allowlist, ..*old(daemon) }),
{
    if !saved {
        daemon.allowlist.undo_remove(id, prev);
    }
}

/// An allowed peer.
#[derive(Debug, Clone, PartialEq, Eq)]
pub struct PeerRow {
    /// Its identity.
    pub peer_id: String,
    /// A name for people.
    pub label: Option<String>,
    /// When it was added, in seconds since 1970.
    pub added_at: i64,
    /// When data was last exchanged with it, in seconds since 1970.
    pub last_seen_at: Option<i64>,
}

/// The allowed peers.
#[derive(Debug, Clone, PartialEq, Eq)]
pub struct PeersReply {
    /// The peers that were added.
    pub peers: Vec<PeerRow>,
    /// Whether every peer is allowed.
    pub open_all: bool,
}

/// The row of a peer.
pub open spec fn is_row(row: PeerRow, id: PeerId, info: PeerInfo, seen: Map<Seq<u8>, i64>) -> bool {
    &&& row.peer_id@ == hex_text(id@)
    &&& row.label == info.label
    &&& row.added_at == info.added_at
    &&& row.last_seen_at == if seen.dom().contains(id@) {
        Some(seen[id@])
    } else {
        None
    }
}

/// The allowed peers, each with the time at which data was last exchanged with it.
pub fn list_peers<S>(daemon: &DaemonState<S>) -> (r: PeersReply)
    ensures
        r.open_all == daemon.allowlist@.open_all,
        r.peers@.len() == daemon.allowlist.listed().len(),
        r.peers@.len() == daemon.allowlist@.peers.dom().len(),
        daemon.allowlist@.peers == entries_map(daemon.allowlist.listed()),
        forall|i: int|
            0 <= i < r.peers@.len() ==> is_row(
                #[trigger] r.peers@[i],
                daemon.allowlist.listed()[i].0,
                daemon.allowlist.listed()[i].1,
                daemon.last_seen@,
            ),
{
    let all = daemon.allowlist.list();
    let mut rows: Vec<PeerRow> = Vec::new();
    let mut i: usize = 0;
    while i < all.len()
        invariant
            i <= all@.len(),
            rows@.len() == i,
            all@ == daemon.allowlist.listed(),
            forall|j: int|
                0 <= j < i ==> is_row(
                    #[trigger] rows@[j],
                    all@[j].0,
                    all@[j].1,
                    daemon.last_seen@,
                ),
        decreases all@.len() - i,
    {
        let entry = &all[i];
        let last_seen_at = daemon.last_seen_at(&entry.0);
        rows.push(
            PeerRow {
                peer_id: entry.0.text(),
                label: copy_label(&entry.1.label),
                added_at: entry.1.added_at,
                last_seen_at,
            },
        );
        i += 1;
    }
    PeersReply { peers: rows, open_all: daemon.allowlist.is_open_all() }
}

/// The recorded changes, later ones first, and no more than the limit.
pub fn pending_reply(entries: Vec<PendingEntry>, limit: Option<usize>) -> (out: Vec<PendingEntry>)
    ensures
        exists|all: Seq<PendingEntry>|
            #![trigger newest_first(all)]
            newest_first(all) && (forall|t: i64| #[trigger]
                received_when(all, t) == received_when(entries@, t)) && all.to_multiset()
                == entries@.to_multiset()
                && out@ == match limit {
                Some(n) => if n <= all.len() {
                    all.subrange(0, n as int)
                } else {
                    all
                },
                None => all,
            },
{
    let all = list_pending(entries);
    let ghost sorted = all@;
    let out = limit_pending(all, limit);
    proof {
        assert(newest_first(sorted));
    }
    out
}

/// The number of log lines that are given: 50 unless asked otherwise, and never more than 100.
pub fn log_line_limit(lines: Option<u32>) -> (n: usize)
    ensures
        n == match lines {
            None => 50,
            Some(k) => if k <= 100 {
                k as int
            } else {
                100
            },
        },
{
    match lines {
        None => 50,
        Some(k) => {
            if k <= 100 {
                k as usize
            } else {
                100
            }
        },
    }
}

/// The last lines of the log, without secrets; none where there is no log.
pub fn recent_log(log: Option<&str>, lines: Option<u32>) -> (out: Vec<String>)
    ensures
        texts(out@) == match log {
            None => Seq::<Seq<char>>::empty(),
            Some(s) => last_ones(
                lines_of(s@),
                match lines {
                    None => 50,
                    Some(k) => if k <= 100 {
                        k as int
                    } else {
                        100
                    },
                },
            ).map_values(|l: Seq<char>| redacted_line(l)),
        },
        out@.len() <= 100,
{
    let out = tail_lines_redacted(log, log_line_limit(lines));
    proof {
        assert(out@.len() == texts(out@).len());
    }
    out
}

/// The group of a daemon is never replaced: an invitation to another group is refused, one to the
/// same group changes nothing on the disk, and only a daemon without a group takes the secret over,
/// exactly as it was given.
pub proof fn law_group_is_never_replaced(
    r: Result<AcceptPlan, AcceptError>,
    t: TicketView,
    secret_path: Seq<char>,
    read: FileRead,
)
    requires
        accepts(r, t, secret_path, read),
    ensures
        read matches FileRead::Bytes(b) && b@.len() == 16 && b@ != t.folder_secret ==> (
        r matches Err(AcceptError::OtherGroup { .. })),
        read matches FileRead::Bytes(b) && b@.len() == 16 && b@ == t.folder_secret ==> (
        r matches Ok(p) && p.write is None && p.invite@ == t),
        read matches FileRead::Bytes(b) && b@.len() != 16 ==> r is Err,
        read is Failed ==> r is Err,
        read is Missing && parent_path(secret_path) is Some ==> (r matches Ok(p)
            && p.invite@ == t && (p.write matches Some(w) && w.content@ == t.folder_secret
            && w.target@ == secret_path && w.private)),
        r matches Ok(p) && p.write is Some ==> read is Missing,
{
}

/// A daemon has to be restarted exactly where it got a secret, or where it had to be before.
pub proof fn law_written_secret_needs_a_restart(s: RuntimeStatus, written: bool)
    ensures
        written ==> status_after(s, written).spec_restart_required() && !status_after(
            s,
            written,
        ).spec_gossip_subscribed(),
        !written ==> status_after(s, written) == s,
{
}

/// Where a peer was added and the list could not be stored, taking the addition back leads to the
/// peers that were allowed before; and what had to be stored are the peers with the new one.
pub proof fn law_failed_store_changes_nothing<S>(
    u: UnsavedAdd,
    daemon: &DaemonState<S>,
    id: Seq<u8>,
    info: PeerInfo,
    before: AllowView,
)
    requires
        unsaved(u, daemon, id, before),
        daemon.allowlist@ == before.with(id, info),
    ensures
        undone(daemon.allowlist@, u.undo.spec_id(), u.undo.before()) == before,
        !u.snapshot.open_all,
        u.snapshot.version == 2,
        u.snapshot.peers@.len() == daemon.allowlist.listed().len(),
        entries_map(daemon.allowlist.listed()).dom().contains(id),
{
    crate::allowlist::law_undone_addition(before, id, info);
}

/// What the daemon can be asked has a name of its own.
pub proof fn law_methods_have_names(a: Method, b: Method)
    requires
        a.spec_name() == b.spec_name(),
    ensures
        a == b,
{
    reveal_strlit("sync.health-check");
    reveal_strlit("sync.status");
    reveal_strlit("sync.invite");
    reveal_strlit("sync.accept-invite");
    reveal_strlit("sync.allow-peer");
    reveal_strlit("sync.list-peers");
    reveal_strlit("sync.revoke");
    reveal_strlit("sync.list-pending");
    reveal_strlit("sync.recent-log");
    assert("sync.health-check"@.len() == 17 && "sync.health-check"@[5] == 'h');
    assert("sync.status"@.len() == 11 && "sync.status"@[5] == 's');
    assert("sync.invite"@.len() == 11 && "sync.invite"@[5] == 'i');
    assert("sync.accept-invite"@.len() == 18 && "sync.accept-invite"@[5] == 'a');
    assert("sync.allow-peer"@.len() == 15 && "sync.allow-peer"@[5] == 'a');
    assert("sync.list-peers"@.len() == 15 && "sync.list-peers"@[5] == 'l');
    assert("sync.revoke"@.len() == 11 && "sync.revoke"@[5] == 'r');
    assert("sync.list-pending"@.len() == 17 && "sync.list-pending"@[5] == 'l');
    assert("sync.recent-log"@.len() == 15 && "sync.recent-log"@[5] == 'r');
    assert(a.spec_name().len() == b.spec_name().len());
    assert(a.spec_name()[5] == b.spec_name()[5]);
}

/// The row of a peer tells its identity and what is known of it, and the time at which data was
/// last exchanged with it.
pub proof fn law_row_tells_the_peer(
    row: PeerRow,
    id: PeerId,
    info: PeerInfo,
    seen: Map<Seq<u8>, i64>,
)
    requires
        is_row(row, id, info, seen),
    ensures
        row.peer_id@ == hex_text(id@),
        row.label == info.label,
        row.added_at == info.added_at,
        seen.dom().contains(id@) ==> row.last_seen_at == Some(seen[id@]),
        !seen.dom().contains(id@) ==> row.last_seen_at is None,
{
}

} // verus!
