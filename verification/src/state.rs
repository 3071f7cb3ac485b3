//! What the receiving side tells the watching side, so that a change that came from a peer is
//! not sent out again.
use crate::digest::{blake3_digest, blake3_hash, digest_prefix};
use crate::hex::{hex_text, is_lower_hex, law_hex_text};
use crate::peer_id::BlobHash;
use crate::table::Table;
use crate::text::texts;
use vstd::prelude::*;
use vstd::utf8::encode_utf8;

verus! {

/// For how many milliseconds a second removal notice for the same path is held back.
pub const TOMBSTONE_DEDUP_TTL: u64 = 2000;

/// What is known of the changes that this process made or announced itself.
#[derive(Debug)]
pub struct SyncState {
    /// Paths that are being written for a peer, with the hash of the contents.
    pub pending_written: Table<String, BlobHash>,
    /// Paths that were written last, with the hash of the contents.
    pub last_written: Table<String, BlobHash>,
    /// Paths that were removed for a peer.
    pub last_removed: Table<String, ()>,
    /// Paths whose removal was announced, with the time of the announcement in milliseconds.
    pub recently_broadcast_tombstones: Table<String, u64>,
}

/// The state as a mathematical value.
pub struct SyncView {
    pub pending_written: Map<Seq<char>, BlobHash>,
    pub last_written: Map<Seq<char>, BlobHash>,
    pub last_removed: Set<Seq<char>>,
    pub tombstones: Map<Seq<char>, u64>,
}

impl View for SyncState {
    type V = SyncView;

    open spec fn view(&self) -> SyncView {
        SyncView {
            pending_written: self.pending_written@,
            last_written: self.last_written@,
            last_removed: self.last_removed@.dom(),
            tombstones: self.recently_broadcast_tombstones@,
        }
    }
}

impl SyncView {
    /// The state in which nothing was written, removed or announced.
    pub open spec fn empty() -> SyncView {
        SyncView {
            pending_written: Map::empty(),
            last_written: Map::empty(),
            last_removed: Set::empty(),
            tombstones: Map::empty(),
        }
    }

    /// The contents of `rel` are being written.
    pub open spec fn writing(self, rel: Seq<char>, hash: BlobHash) -> SyncView {
        SyncView { pending_written: self.pending_written.insert(rel, hash), ..self }
    }

    /// The contents of `rel` are not being written.
    pub open spec fn not_writing(self, rel: Seq<char>) -> SyncView {
        SyncView { pending_written: self.pending_written.remove(rel), ..self }
    }

    /// The contents of `rel` were written.
    pub open spec fn written(self, rel: Seq<char>, hash: BlobHash) -> SyncView {
        SyncView { last_written: self.last_written.insert(rel, hash), ..self }
    }

    /// Nothing is known of the contents of `rel`.
    pub open spec fn not_written(self, rel: Seq<char>) -> SyncView {
        SyncView { last_written: self.last_written.remove(rel), ..self }
    }

    /// `rel` was removed for a peer.
    pub open spec fn removed(self, rel: Seq<char>) -> SyncView {
        SyncView { last_removed: self.last_removed.insert(rel), ..self }
    }

    /// `rel` was not removed for a peer.
    pub open spec fn not_removed(self, rel: Seq<char>) -> SyncView {
        SyncView { last_removed: self.last_removed.remove(rel), ..self }
    }

    /// The removal of `rel` was announced at `now`.
    pub open spec fn announced(self, rel: Seq<char>, now: u64) -> SyncView {
        SyncView { tombstones: self.tombstones.insert(rel, now), ..self }
    }

    /// The removal of `rel` was announced less than [`TOMBSTONE_DEDUP_TTL`] before `now`.
    pub open spec fn recently_announced(self, rel: Seq<char>, now: u64) -> bool {
        self.tombstones.dom().contains(rel) && now - self.tombstones[rel] < TOMBSTONE_DEDUP_TTL
    }
}

impl Default for SyncState {
    fn default() -> (s: SyncState)
        ensures
            s@ == SyncView::empty(),
    {
        SyncState::new()
    }
}

impl SyncState {
    /// The state in which nothing was written, removed or announced.
    pub fn new() -> (s: SyncState)
        ensures
            s@ == SyncView::empty(),
    {
        let s = SyncState {
            pending_written: Table::new(),
            last_written: Table::new(),
            last_removed: Table::new(),
            recently_broadcast_tombstones: Table::new(),
        };
        proof {
            assert(s@.last_removed =~= Set::<Seq<char>>::empty());
        }
        s
    }

    /// Notes that the contents of `rel` are being written.
    pub fn mark_writing(&mut self, rel: &str, hash: BlobHash)
        ensures
            final(self)@ == old(self)@.writing(rel@, hash),
    {
        let _ = self.pending_written.insert(rel.to_owned(), hash);
    }

    /// Notes that the contents of `rel` are no longer being written.
    pub fn unmark_writing(&mut self, rel: &str)
        ensures
            final(self)@ == old(self)@.not_writing(rel@),
    {
        let _ = self.pending_written.remove(&rel.to_owned());
    }

    /// Notes that the contents of `rel` were written.
    pub fn mark_written(&mut self, rel: &str, hash: BlobHash)
        ensures
            final(self)@ == old(self)@.written(rel@, hash),
    {
        let _ = self.last_written.insert(rel.to_owned(), hash);
    }

    /// The hash that was last written to `rel`, which is forgotten.
    pub fn take_written(&mut self, rel: &str) -> (r: Option<BlobHash>)
        ensures
            final(self)@ == old(self)@.not_written(rel@),
            r is Some <==> old(self)@.last_written.dom().contains(rel@),
            r matches Some(h) ==> h == old(self)@.last_written[rel@],
    {
        self.last_written.remove(&rel.to_owned())
    }

    /// Notes that `rel` was removed for a peer.
    pub fn mark_removed(&mut self, rel: &str)
        ensures
            final(self)@ == old(self)@.removed(rel@),
    {
        let _ = self.last_removed.insert(rel.to_owned(), ());
        proof {
            assert(self@.last_removed =~= old(self)@.last_removed.insert(rel@));
        }
    }

    /// Whether `rel` was removed for a peer, which is forgotten.
    pub fn take_removed(&mut self, rel: &str) -> (r: bool)
        ensures
            final(self)@ == old(self)@.not_removed(rel@),
            r == old(self)@.last_removed.contains(rel@),
    {
        let r = self.last_removed.remove(&rel.to_owned());
        proof {
            assert(self@.last_removed =~= old(self)@.last_removed.remove(rel@));
        }
        r.is_some()
    }

    /// Whether the removal of `rel` is to be announced at `now`: not where it was announced a
    /// moment ago. An announcement is noted.
    pub fn admit_tombstone(&mut self, rel: &str, now: u64) -> (r: bool)
        ensures
            r == !old(self)@.recently_announced(rel@, now),
            final(self)@ == if r {
                old(self)@.announced(rel@, now)
            } else {
                old(self)@
            },
    {
        let key: String = rel.to_owned();
        match self.recently_broadcast_tombstones.get(&key) {
            Some(t) => {
                if now < *t || now - *t < TOMBSTONE_DEDUP_TTL {
                    return false;
                }
            },
            None => {},
        }
        let _ = self.recently_broadcast_tombstones.insert(key, now);
        true
    }
}

/// A removal is announced once within [`TOMBSTONE_DEDUP_TTL`], and again after it.
pub proof fn law_tombstone_window(s: SyncView, rel: Seq<char>, first: u64, second: u64)
    ensures
        s.announced(rel, first).recently_announced(rel, second) <==> second < first
            + TOMBSTONE_DEDUP_TTL,
{
}

/// The changes that wait until the first neighbour is there to hear of them.
#[derive(Debug)]
pub struct InitialBroadcasts {
    joined: bool,
    queue: Vec<String>,
}

/// The waiting changes as a mathematical value.
pub struct WaitingView {
    pub joined: bool,
    pub queue: Seq<Seq<char>>,
}

impl View for InitialBroadcasts {
    type V = WaitingView;

    closed spec fn view(&self) -> WaitingView {
        WaitingView { joined: self.joined, queue: texts(self.queue@) }
    }
}

impl WaitingView {
    /// A change of `rel` is to be told: it waits behind the others until a neighbour was there.
    pub open spec fn told(self, rel: Seq<char>) -> WaitingView {
        if self.joined {
            self
        } else {
            WaitingView { queue: self.queue.push(rel), ..self }
        }
    }
}

impl InitialBroadcasts {
    /// No neighbour was there yet, and nothing waits.
    pub fn new() -> (w: InitialBroadcasts)
        ensures
            !w@.joined,
            w@.queue == Seq::<Seq<char>>::empty(),
    {
        let w = InitialBroadcasts { joined: false, queue: Vec::new() };
        proof {
            assert(w@.queue =~= Seq::<Seq<char>>::empty());
        }
        w
    }

    /// Notes that a neighbour is there, and returns whether it is the first.
    pub fn mark_first_join(&mut self) -> (first: bool)
        ensures
            first == !old(self)@.joined,
            final(self)@.joined,
            final(self)@.queue == old(self)@.queue,
    {
        let first = !self.joined;
        self.joined = true;
        first
    }

    /// Lets a change of `rel` wait where no neighbour was there yet, and returns whether it does.
    pub fn enqueue_initial_broadcast(&mut self, rel: &str) -> (waits: bool)
        ensures
            waits == !old(self)@.joined,
            final(self)@ == old(self)@.told(rel@),
    {
        if self.joined {
            return false;
        }
        self.queue.push(rel.to_owned());
        proof {
            assert(self@.queue =~= old(self)@.queue.push(rel@));
        }
        true
    }

    /// The waiting changes, in the order in which they came; none waits any more.
    pub fn drain_pending_initial(&mut self) -> (out: Vec<String>)
        ensures
            texts(out@) == old(self)@.queue,
            final(self)@.queue == Seq::<Seq<char>>::empty(),
            final(self)@.joined == old(self)@.joined,
    {
        let mut out: Vec<String> = Vec::new();
        std::mem::swap(&mut out, &mut self.queue);
        proof {
            assert(self@.queue =~= Seq::<Seq<char>>::empty());
        }
        out
    }
}

/// Where received changes of one directory are recorded.
#[derive(Debug, Clone, PartialEq, Eq)]
pub struct PendingTracker {
    /// The directory of all records.
    pub pending_root: String,
    /// The name of the directory for the synchronised directory.
    pub repo_hash: String,
}

/// The name under which the records of a directory are kept: the first 16 hexadecimal digits of
/// the BLAKE3 hash of its path.
pub open spec fn repo_hash_text(realpath: Seq<char>) -> Seq<char> {
    hex_text(blake3_digest(encode_utf8(realpath)).subrange(0, 8))
}

impl PendingTracker {
    /// The tracker for a directory, given by its resolved path.
    pub fn new(pending_root: &str, realpath: &str) -> (t: PendingTracker)
        ensures
            t.pending_root@ == pending_root@,
            t.repo_hash@ == repo_hash_text(realpath@),
    {
        PendingTracker {
            pending_root: pending_root.to_owned(),
            repo_hash: compute_repo_hash(realpath),
        }
    }
}

/// The name under which the records of the directory `realpath` are kept.
pub fn compute_repo_hash(realpath: &str) -> (r: String)
    ensures
        r@ == repo_hash_text(realpath@),
        r@.len() == 16,
        forall|i: int| 0 <= i < r@.len() ==> is_lower_hex(#[trigger] r@[i]),
{
    let digest = blake3_hash(realpath.as_bytes());
    proof {
        let head = digest@.subrange(0, 8);
        law_hex_text(head, head);
    }
    digest_prefix(&digest, 8)
}

/// What is announced of one file says nothing of another, and a removal that was never announced
/// was not announced a moment ago.
pub proof fn law_announcements_are_apart(
    s: SyncView,
    rel: Seq<char>,
    other: Seq<char>,
    at: u64,
    now: u64,
)
    requires
        other != rel,
    ensures
        s.announced(rel, at).recently_announced(other, now) == s.recently_announced(other, now),
        !s.tombstones.dom().contains(rel) ==> !s.recently_announced(rel, now),
        s.tombstones.dom().contains(rel) ==> (s.recently_announced(rel, now) <==> now
            < s.tombstones[rel] + 2000),
        s.announced(rel, at).pending_written == s.pending_written,
        s.announced(rel, at).last_written == s.last_written,
        s.announced(rel, at).last_removed == s.last_removed,
{
}

/// A note on a file is there until it is taken back, and taking it back leaves the other notes.
pub proof fn law_notes_are_apart(s: SyncView, rel: Seq<char>, other: Seq<char>, hash: BlobHash)
    requires
        other != rel,
    ensures
        s.written(rel, hash).last_written.dom().contains(rel) && s.written(
            rel,
            hash,
        ).last_written[rel] == hash,
        !s.not_written(rel).last_written.dom().contains(rel),
        s.not_written(rel).last_written.dom().contains(other) <==> s.last_written.dom().contains(
            other,
        ),
        s.not_written(rel).last_written[other] == s.last_written[other],
        s.written(rel, hash).pending_written == s.pending_written,
        s.not_written(rel).pending_written == s.pending_written,
        s.not_written(rel).last_removed == s.last_removed,
        s.removed(rel).last_removed.contains(rel),
        !s.not_removed(rel).last_removed.contains(rel),
        s.not_removed(rel).last_removed.contains(other) <==> s.last_removed.contains(other),
        s.not_removed(rel).last_written == s.last_written,
        s.not_removed(rel).pending_written == s.pending_written,
{
}

/// A change waits exactly as long as no neighbour was there, and behind those that came before.
pub proof fn law_changes_wait_in_order(w: WaitingView, a: Seq<char>, b: Seq<char>)
    ensures
        w.joined ==> w.told(a) == w,
        !w.joined ==> w.told(a).told(b).queue == w.queue + seq![a, b] && !w.told(a).told(b).joined,
{
    assert(w.queue.push(a).push(b) =~= w.queue + seq![a, b]);
}

/// The records of a directory are kept under sixteen lower-case hexadecimal digits, so that the
/// name stands for a directory of its own.
pub proof fn law_repo_hash_is_a_name(realpath: Seq<char>)
    requires
        blake3_digest(encode_utf8(realpath)).len() == 32,
    ensures
        repo_hash_text(realpath).len() == 16,
        repo_hash_text(realpath) == hex_text(blake3_digest(encode_utf8(realpath))).subrange(0, 16),
        forall|i: int|
            0 <= i < 16 ==> is_lower_hex(#[trigger] repo_hash_text(realpath)[i]),
{
    let d = blake3_digest(encode_utf8(realpath));
    let head = d.subrange(0, 8);
    law_hex_text(head, head);
    law_hex_text(d, d);
    assert(hex_text(head) =~= hex_text(d).subrange(0, 16));
}

} // verus!
