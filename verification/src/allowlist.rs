//! The peers that are listened to and served.
use crate::atomic_write::{private_file, AtomicWrite, NoParent};
use crate::hex::hex_text;
use crate::path_text::parent_path;
use crate::peer_id::{is_endpoint_key, parsed_endpoint_key, PeerId};
use crate::table::{entries_map, Key, Table};
use crate::text::{decimal, decimal_text};
use vstd::prelude::*;

verus! {

/// The version of the stored form.
pub const ALLOWLIST_SCHEMA_VERSION: u32 = 2;

/// What is known of an allowed peer.
#[derive(Debug, PartialEq, Eq)]
pub struct PeerInfo {
    /// A name for people.
    pub label: Option<String>,
    /// When the peer was added, in seconds since 1970.
    pub added_at: i64,
    /// When data was last exchanged with the peer, in seconds since 1970.
    pub last_seen_at: Option<i64>,
}

impl Clone for PeerInfo {
    fn clone(&self) -> (r: PeerInfo)
        ensures
            r == *self,
    {
        let label = match &self.label {
            Some(text) => Some(text.clone()),
            None => None,
        };
        PeerInfo { label, added_at: self.added_at, last_seen_at: self.last_seen_at }
    }
}

impl PeerInfo {
    /// A peer with which no data was exchanged yet.
    pub fn new(label: Option<String>, added_at: i64) -> (r: PeerInfo)
        ensures
            r == (PeerInfo { label, added_at, last_seen_at: None }),
    {
        PeerInfo { label, added_at, last_seen_at: None }
    }
}

/// The allowed peers, or all of them.
#[derive(Debug)]
pub struct AllowList {
    open: bool,
    peers: Table<PeerId, PeerInfo>,
}

/// The allowed peers as a mathematical value.
pub struct AllowView {
    /// Every peer is allowed.
    pub open_all: bool,
    /// The peers that were added.
    pub peers: Map<Seq<u8>, PeerInfo>,
}

impl View for AllowList {
    type V = AllowView;

    closed spec fn view(&self) -> AllowView {
        AllowView { open_all: self.open, peers: self.peers@ }
    }
}

impl AllowView {
    /// The peer is allowed.
    pub open spec fn allows(self, id: Seq<u8>) -> bool {
        self.open_all || self.peers.dom().contains(id)
    }

    /// The peer is added; from then on only added peers are allowed.
    pub open spec fn with(self, id: Seq<u8>, info: PeerInfo) -> AllowView {
        AllowView { open_all: false, peers: self.peers.insert(id, info) }
    }

    /// The peer is taken away.
    pub open spec fn without(self, id: Seq<u8>) -> AllowView {
        AllowView { peers: self.peers.remove(id), ..self }
    }
}

/// The stored form of the allowed peers.
#[derive(Debug, PartialEq, Eq)]
pub struct AllowSnapshot {
    /// The version of the stored form.
    pub version: u32,
    /// Whether every peer is allowed.
    pub open_all: bool,
    /// The peers that were added, by the text of their identity.
    pub peers: Vec<(String, PeerInfo)>,
}

/// Why a stored form is refused.
#[derive(Debug, PartialEq, Eq)]
pub enum AllowError {
    /// It has another version than [`ALLOWLIST_SCHEMA_VERSION`].
    Version {
        /// Its version.
        got: u32,
    },
    /// A text is no identity of a peer.
    PeerId {
        /// The text.
        text: String,
        /// What is wrong with it.
        reason: String,
    },
}

impl AllowError {
    /// The text of the error.
    pub open spec fn message_text(&self) -> Seq<char> {
        match self {
            AllowError::Version { got } => "allowlist schema version mismatch: expected "@
                + decimal_text(ALLOWLIST_SCHEMA_VERSION as nat) + ", got "@ + decimal_text(
                *got as nat,
            ),
            AllowError::PeerId { text, reason } => "invalid peer_id `"@ + text@ + "`: "@ + reason@,
        }
    }

    /// The text of the error.
    pub fn message(&self) -> (r: String)
        ensures
            r@ == self.message_text(),
    {
        match self {
            AllowError::Version { got } => {
                let expected = decimal(ALLOWLIST_SCHEMA_VERSION as u64);
                let got = decimal(*got as u64);
                "allowlist schema version mismatch: expected ".to_owned().concat(
                    expected.as_str(),
                ).concat(", got ").concat(got.as_str())
            },
            AllowError::PeerId { text, reason } => "invalid peer_id `".to_owned().concat(
                text.as_str(),
            ).concat("`: ").concat(reason.as_str()),
        }
    }
}

/// The peers of the first `n` stored entries; or the first text that is no identity, with the
/// reason.
pub open spec fn stored_peers(peers: Seq<(String, PeerInfo)>, n: int) -> Result<
    Map<Seq<u8>, PeerInfo>,
    (Seq<char>, Seq<char>),
>
    decreases n,
{
    if n <= 0 {
        Ok(Map::empty())
    } else {
        match stored_peers(peers, n - 1) {
            Err(e) => Err(e),
            Ok(m) => match parsed_endpoint_key(peers[n - 1].0@) {
                Err(reason) => Err((peers[n - 1].0@, reason)),
                Ok(id) => Ok(m.insert(id, peers[n - 1].1)),
            },
        }
    }
}

/// A stored form as it is written: each peer under the hexadecimal text of its key.
pub open spec fn stores(s: AllowSnapshot, entries: Seq<(PeerId, PeerInfo)>) -> bool {
    &&& s.version == ALLOWLIST_SCHEMA_VERSION
    &&& s.peers@.len() == entries.len()
    &&& forall|i: int|
        0 <= i < entries.len() ==> (#[trigger] s.peers@[i]).0@ == hex_text(entries[i].0@)
            && s.peers@[i].1 == entries[i].1 && entries[i].0@.len() == 32 && is_endpoint_key(
            entries[i].0@,
        )
}

/// What takes the addition of a peer back.
#[derive(Debug)]
pub struct AddUndo {
    id: PeerId,
    open: bool,
    peers: Table<PeerId, PeerInfo>,
}

impl AddUndo {
    /// The peer that was added.
    pub closed spec fn spec_id(&self) -> Seq<u8> {
        self.id@
    }

    /// The allowed peers before the addition.
    pub closed spec fn before(&self) -> AllowView {
        AllowView { open_all: self.open, peers: self.peers@ }
    }
}

/// The same is known of two peers.
pub open spec fn same_info(a: PeerInfo, b: PeerInfo) -> bool {
    &&& a.added_at == b.added_at
    &&& a.last_seen_at == b.last_seen_at
    &&& match (a.label, b.label) {
        (Some(x), Some(y)) => x@ == y@,
        (None, None) => true,
        _ => false,
    }
}

/// Every peer of `a` but `id` is one of `b`, and the same is known of it.
pub open spec fn peers_within(
    a: Map<Seq<u8>, PeerInfo>,
    b: Map<Seq<u8>, PeerInfo>,
    id: Seq<u8>,
) -> bool {
    forall|k: Seq<u8>| #[trigger]
        a.dom().contains(k) && k != id ==> b.dom().contains(k) && same_info(a[k], b[k])
}

/// The list `now` with the addition of `id` to the list `before` taken back. All peers are allowed
/// again only where they were, and where no other peer was added, changed or taken away since.
pub open spec fn undone(now: AllowView, id: Seq<u8>, before: AllowView) -> AllowView {
    AllowView {
        open_all: before.open_all && peers_within(now.peers, before.peers, id) && peers_within(
            before.peers,
            now.peers,
            id,
        ),
        peers: if before.peers.dom().contains(id) {
            now.peers.insert(id, before.peers[id])
        } else {
            now.peers.remove(id)
        },
    }
}

fn info_same(a: &PeerInfo, b: &PeerInfo) -> (r: bool)
    ensures
        r == same_info(*a, *b),
{
    let labels = match (&a.label, &b.label) {
        (Some(x), Some(y)) => *x.as_str() == *y.as_str(),
        (None, None) => true,
        _ => false,
    };
    let seen = match (a.last_seen_at, b.last_seen_at) {
        (Some(x), Some(y)) => x == y,
        (None, None) => true,
        _ => false,
    };
    labels && seen && a.added_at == b.added_at
}

fn within(a: &Table<PeerId, PeerInfo>, b: &Table<PeerId, PeerInfo>, id: &PeerId) -> (r: bool)
    ensures
        r == peers_within(a@, b@, id@),
{
    let n: usize = a.len();
    let mut i: usize = 0;
    while i < n
        invariant
            i <= n,
            n == a.listed().len(),
            forall|j: int|
                #![trigger a.listed()[j]]
                0 <= j < i && a.listed()[j].0@ != id@ ==> b@.dom().contains(a.listed()[j].0@)
                    && same_info(a@[a.listed()[j].0@], b@[a.listed()[j].0@]),
        decreases n - i,
    {
        let (key, info) = a.entry(i);
        if !key.same(id) {
            match b.get(key) {
                Some(other) => {
                    if !info_same(info, other) {
                        assert(a@.dom().contains(key@));
                        return false;
                    }
                },
                None => {
                    assert(a@.dom().contains(key@));
                    return false;
                },
            }
        }
        i += 1;
    }
    proof {
        assert forall|k: Seq<u8>| #[trigger] a@.dom().contains(k) && k != id@ implies b@.dom().contains(
            k,
        ) && same_info(a@[k], b@[k]) by {
            a.lemma_listed_has(k);
            let j = choose|j: int|
                0 <= j < a.listed().len() && (#[trigger] a.listed()[j]).0.abs() == k;
            assert(a.listed()[j].0@ == k);
        }
    }
    true
}

impl AllowList {
    /// The peers in the order in which they were added: a new one comes last.
    pub closed spec fn listed(&self) -> Seq<(PeerId, PeerInfo)> {
        self.peers.listed()
    }

    /// No peer is allowed.
    pub fn empty_strict() -> (a: AllowList)
        ensures
            !a@.open_all,
            a@.peers == Map::<Seq<u8>, PeerInfo>::empty(),
            forall|id: Seq<u8>| !(#[trigger] a@.allows(id)),
    {
        AllowList { open: false, peers: Table::new() }
    }

    /// Every peer is allowed.
    pub fn open_all() -> (a: AllowList)
        ensures
            a@.open_all,
            a@.peers == Map::<Seq<u8>, PeerInfo>::empty(),
            forall|id: Seq<u8>| #[trigger] a@.allows(id),
    {
        AllowList { open: true, peers: Table::new() }
    }

    /// The allowed peers of a stored form. What [`AllowList::snapshot`] gives is read back as the
    /// peers that it was made of.
    pub fn from_snapshot(s: AllowSnapshot) -> (r: Result<AllowList, AllowError>)
        ensures
            r matches Ok(a) ==> s.version == ALLOWLIST_SCHEMA_VERSION && a@.open_all == s.open_all
                && (stored_peers(s.peers@, s.peers@.len() as int) matches Ok(m) && m == a@.peers),
            r matches Err(AllowError::Version { got }) ==> got == s.version && got
                != ALLOWLIST_SCHEMA_VERSION,
            r matches Err(AllowError::PeerId { text, reason }) ==> s.version
                == ALLOWLIST_SCHEMA_VERSION && (stored_peers(
                s.peers@,
                s.peers@.len() as int,
            ) matches Err(e) && e.0 == text@ && e.1 == reason@),
            forall|entries: Seq<(PeerId, PeerInfo)>| #[trigger]
                stores(s, entries) ==> (r matches Ok(a) && a@.peers == entries_map(entries)),
    {
        if s.version != ALLOWLIST_SCHEMA_VERSION {
            return Err(AllowError::Version { got: s.version });
        }
        let mut peers: Table<PeerId, PeerInfo> = Table::new();
        let mut i: usize = 0;
        proof {
            assert forall|entries: Seq<(PeerId, PeerInfo)>| #[trigger]
                stores(s, entries) implies peers@ == entries_map(entries.take(0)) by {}
        }
        while i < s.peers.len()
            invariant
                i <= s.peers@.len(),
                s.version == ALLOWLIST_SCHEMA_VERSION,
                stored_peers(s.peers@, i as int) matches Ok(m) && m == peers@,
                forall|entries: Seq<(PeerId, PeerInfo)>| #[trigger]
                    stores(s, entries) ==> peers@ == entries_map(entries.take(i as int)),
            decreases s.peers@.len() - i,
        {
            let text = s.peers[i].0.as_str();
            match PeerId::parse(text) {
                Err(reason) => {
                    proof {
                        lemma_stored_error(s.peers@, i + 1, s.peers@.len() as int);
                        assert forall|entries: Seq<(PeerId, PeerInfo)>| #[trigger]
                            stores(s, entries) implies false by {
                            assert(s.peers@[i as int].0@ == hex_text(entries[i as int].0@));
                        }
                    }
                    return Err(AllowError::PeerId { text: text.to_owned(), reason });
                },
                Ok(id) => {
                    let ghost before = peers@;
                    let _ = peers.insert(id, s.peers[i].1.clone());
                    proof {
                        assert forall|entries: Seq<(PeerId, PeerInfo)>| #[trigger]
                            stores(s, entries) implies peers@ == entries_map(
                            entries.take(i + 1),
                        ) by {
                            assert(s.peers@[i as int].0@ == hex_text(entries[i as int].0@));
                            assert(entries.take(i + 1).drop_last() =~= entries.take(i as int));
                            assert(entries.take(i + 1).last() == entries[i as int]);
                        }
                    }
                },
            }
            i += 1;
        }
        proof {
            assert forall|entries: Seq<(PeerId, PeerInfo)>| #[trigger]
                stores(s, entries) implies peers@ == entries_map(entries) by {
                assert(entries.take(i as int) =~= entries);
            }
        }
        Ok(AllowList { open: s.open_all, peers })
    }

    /// The allowed peers of a stored form; none where there is no file. What
    /// [`AllowList::snapshot`] gives is read back as the peers that it was made of.
    pub fn load_or_strict_empty(stored: Option<AllowSnapshot>) -> (r: Result<
        AllowList,
        AllowError,
    >)
        ensures
            match stored {
                None => r matches Ok(a) && !a@.open_all && a@.peers == Map::<
                    Seq<u8>,
                    PeerInfo,
                >::empty(),
                Some(s) => match r {
                    Ok(a) => s.version == ALLOWLIST_SCHEMA_VERSION && a@.open_all == s.open_all && (
                    stored_peers(s.peers@, s.peers@.len() as int) matches Ok(m) && m == a@.peers),
                    Err(AllowError::Version { got }) => got == s.version && got
                        != ALLOWLIST_SCHEMA_VERSION,
                    Err(AllowError::PeerId { text, reason }) => s.version
                        == ALLOWLIST_SCHEMA_VERSION && (stored_peers(
                        s.peers@,
                        s.peers@.len() as int,
                    ) matches Err(e) && e.0 == text@ && e.1 == reason@),
                },
            },
            stored matches Some(s) ==> forall|entries: Seq<(PeerId, PeerInfo)>| #[trigger]
                stores(s, entries) ==> (r matches Ok(a) && a@.peers == entries_map(entries)),
    {
        match stored {
            None => Ok(AllowList::empty_strict()),
            Some(s) => AllowList::from_snapshot(s),
        }
    }

    /// The stored form.
    pub fn snapshot(&self) -> (s: AllowSnapshot)
        ensures
            s.open_all == self@.open_all,
            stores(s, self.listed()),
            self@.peers == entries_map(self.listed()),
    {
        let mut peers: Vec<(String, PeerInfo)> = Vec::new();
        let n: usize = self.peers.len();
        let mut i: usize = 0;
        let ghost all = self.peers.listed();
        while i < n
            invariant
                i <= n,
                n == all.len(),
                all == self.peers.listed(),
                peers@.len() == i,
                forall|j: int|
                    0 <= j < i ==> (#[trigger] peers@[j]).0@ == hex_text(all[j].0@) && peers@[j].1
                        == all[j].1 && all[j].0@.len() == 32 && is_endpoint_key(all[j].0@),
            decreases n - i,
        {
            let (id, info) = self.peers.entry(i);
            let text = id.text();
            peers.push((text, info.clone()));
            i += 1;
        }
        proof {
            self.peers.lemma_listed();
        }
        AllowSnapshot { version: ALLOWLIST_SCHEMA_VERSION, open_all: self.open, peers }
    }

    /// Whether the peer is allowed.
    pub fn contains(&self, id: &PeerId) -> (r: bool)
        ensures
            r == self@.allows(id@),
    {
        self.open || self.peers.contains_key(id)
    }

    /// Whether every peer is allowed.
    pub fn is_open_all(&self) -> (r: bool)
        ensures
            r == self@.open_all,
    {
        self.open
    }

    /// Whether no peer was added.
    pub fn is_empty(&self) -> (r: bool)
        ensures
            r == (self@.peers.dom().len() == 0),
    {
        self.peers.len() == 0
    }

    /// The number of added peers.
    pub fn len(&self) -> (n: usize)
        ensures
            n == self@.peers.dom().len(),
            n == self.listed().len(),
    {
        self.peers.len()
    }

    /// The added peers.
    pub fn list(&self) -> (out: Vec<(PeerId, PeerInfo)>)
        ensures
            out@ == self.listed(),
            out@.len() == self@.peers.dom().len(),
            self@.peers == entries_map(self.listed()),
    {
        let mut out: Vec<(PeerId, PeerInfo)> = Vec::new();
        let n: usize = self.peers.len();
        let mut i: usize = 0;
        let ghost all = self.peers.listed();
        while i < n
            invariant
                i <= n,
                n == all.len(),
                all == self.peers.listed(),
                out@ == all.take(i as int),
            decreases n - i,
        {
            let (id, info) = self.peers.entry(i);
            out.push((*id, info.clone()));
            proof {
                assert(all.take(i + 1) =~= all.take(i as int).push(all[i as int]));
            }
            i += 1;
        }
        proof {
            assert(all.take(i as int) =~= all);
            self.peers.lemma_listed();
        }
        out
    }

    /// Adds a peer. From then on only added peers are allowed.
    pub fn add(&mut self, id: PeerId, info: PeerInfo)
        ensures
            final(self)@ == old(self)@.with(id@, info),
            !old(self)@.peers.dom().contains(id@) ==> final(self).listed()
                == old(self).listed().push((id, info)),
    {
        self.open = false;
        let _ = self.peers.insert(id, info);
    }

    /// Takes a peer away, and returns what was known of it.
    pub fn remove(&mut self, id: &PeerId) -> (prev: Option<PeerInfo>)
        ensures
            final(self)@ == old(self)@.without(id@),
            prev is Some <==> old(self)@.peers.dom().contains(id@),
            prev matches Some(info) ==> info == old(self)@.peers[id@],
    {
        self.peers.remove(id)
    }

    /// Adds a peer, where the addition may have to be taken back because it could not be stored.
    pub fn begin_add(&mut self, id: PeerId, info: PeerInfo) -> (undo: AddUndo)
        ensures
            final(self)@ == old(self)@.with(id@, info),
            undo.spec_id() == id@,
            undo.before() == old(self)@,
            !old(self)@.peers.dom().contains(id@) ==> final(self).listed()
                == old(self).listed().push((id, info)),
    {
        let open = self.open;
        let peers = self.copied_peers();
        self.open = false;
        let _ = self.peers.insert(id, info);
        AddUndo { id, open, peers }
    }

    fn copied_peers(&self) -> (t: Table<PeerId, PeerInfo>)
        ensures
            t@ == self@.peers,
    {
        let mut t: Table<PeerId, PeerInfo> = Table::new();
        let n: usize = self.peers.len();
        let mut i: usize = 0;
        let ghost all = self.peers.listed();
        while i < n
            invariant
                i <= n,
                n == all.len(),
                all == self.peers.listed(),
                t@ == entries_map(all.take(i as int)),
            decreases n - i,
        {
            let (id, info) = self.peers.entry(i);
            let _ = t.insert(*id, info.clone());
            proof {
                assert(all.take(i + 1).drop_last() =~= all.take(i as int));
                assert(all.take(i + 1).last() == all[i as int]);
            }
            i += 1;
        }
        proof {
            assert(all.take(i as int) =~= all);
            self.peers.lemma_listed();
        }
        t
    }

    /// Takes the addition of a peer back. Where other peers were added since, only added peers stay
    /// allowed.
    pub fn undo_add(&mut self, undo: AddUndo)
        ensures
            final(self)@ == undone(old(self)@, undo.spec_id(), undo.before()),
    {
        let open = undo.open && within(&self.peers, &undo.peers, &undo.id) && within(
            &undo.peers,
            &self.peers,
            &undo.id,
        );
        self.open = open;
        match undo.peers.get(&undo.id) {
            Some(info) => {
                let _ = self.peers.insert(undo.id, info.clone());
            },
            None => {
                let _ = self.peers.remove(&undo.id);
            },
        }
    }

    /// Gives a peer back that was taken away, because that could not be stored.
    pub fn undo_remove(&mut self, id: PeerId, prev: Option<PeerInfo>)
        ensures
            final(self)@ == match prev {
                Some(info) => (AllowView {
                    peers: old(self)@.peers.insert(id@, info),
                    ..old(self)@
                }),
                None => old(self)@,
            },
    {
        match prev {
            Some(info) => {
                let _ = self.peers.insert(id, info);
            },
            None => {},
        }
    }
}

/// The file that keeps the allowed peers: `body` is the stored form as it is written out.
pub fn save_allowlist(path: &str, body: Vec<u8>) -> (r: Result<AtomicWrite, NoParent>)
    ensures
        r is Ok <==> parent_path(path@) is Some,
        r matches Ok(w) ==> Some(w.dir@) == parent_path(path@) && w.private && w.prefix@
            == ".allowlist."@ && w.target@ == path@ && w.content == body,
        r matches Err(e) ==> e.target@ == path@,
{
    private_file(path, ".allowlist.", body)
}

proof fn lemma_stored_error(peers: Seq<(String, PeerInfo)>, a: int, b: int)
    requires
        a <= b,
        stored_peers(peers, a) is Err,
    ensures
        stored_peers(peers, b) == stored_peers(peers, a),
    decreases b - a,
{
    if a < b {
        lemma_stored_error(peers, a, b - 1);
    }
}

/// Once a peer was added, only added peers are allowed, whatever is added or taken away later; also
/// where the addition of another peer is taken back.
pub proof fn law_strict_stays_strict(
    a: AllowView,
    id: Seq<u8>,
    info: PeerInfo,
    other: Seq<u8>,
    undo: AllowView,
)
    ensures
        !a.with(id, info).open_all,
        a.with(id, info).allows(id),
        a.with(id, info).allows(other) <==> other == id || a.peers.dom().contains(other),
        !a.open_all ==> !a.without(other).open_all,
        id != other && !(undo.peers.dom().contains(id) && same_info(info, undo.peers[id]))
            ==> !undone(a.with(id, info), other, undo).open_all,
        !undo.open_all ==> !undone(a, other, undo).open_all,
{
    if id != other {
        assert(a.with(id, info).peers.dom().contains(id));
    }
}

/// Taking an addition back at once leads to the list before.
pub proof fn law_undone_addition(a: AllowView, id: Seq<u8>, info: PeerInfo)
    ensures
        undone(a.with(id, info), id, a) == a,
{
    let now = a.with(id, info);
    assert(undone(now, id, a).peers =~= a.peers);
    assert forall|k: Seq<u8>| #[trigger] a.peers.dom().contains(k) && k != id implies now.peers[k]
        == a.peers[k] by {}
}

/// A peer that was taken away is not allowed any more, and the others are as before.
pub proof fn law_removed_peer_is_refused(a: AllowView, id: Seq<u8>, other: Seq<u8>)
    requires
        !a.open_all,
    ensures
        !a.without(id).allows(id),
        other != id ==> (a.without(id).allows(other) <==> a.allows(other)),
{
}

/// Giving a peer back that was taken away leads back to the list before.
pub proof fn law_undone_removal(a: AllowView, id: Seq<u8>)
    requires
        a.peers.dom().contains(id),
    ensures
        (AllowView { peers: a.without(id).peers.insert(id, a.peers[id]), ..a.without(id) }) == a,
{
    assert(a.without(id).peers.insert(id, a.peers[id]) =~= a.peers);
}

/// An open list allows every peer; any other list allows exactly the peers that were added. What is
/// known of a peer is what was said when it was added, and adding or taking away one peer changes
/// nothing of the others.
pub proof fn law_added_peers_are_known(
    a: AllowView,
    id: Seq<u8>,
    info: PeerInfo,
    other: Seq<u8>,
)
    requires
        other != id,
    ensures
        a.open_all ==> a.allows(id),
        !a.open_all ==> (a.allows(id) <==> a.peers.dom().contains(id)),
        a.with(id, info).peers.dom().contains(id) && a.with(id, info).peers[id] == info,
        a.with(id, info).peers.dom().contains(other) <==> a.peers.dom().contains(other),
        a.peers.dom().contains(other) ==> a.with(id, info).peers[other] == a.peers[other],
        !a.without(id).peers.dom().contains(id),
        a.without(id).open_all == a.open_all,
        a.without(id).peers.dom().contains(other) <==> a.peers.dom().contains(other),
        a.peers.dom().contains(other) ==> a.without(id).peers[other] == a.peers[other],
{
}

/// Taking the addition of one peer back, whenever it is done, changes nothing of the others, and
/// gives the peer what was known of it before, if anything.
pub proof fn law_undone_addition_leaves_others(
    now: AllowView,
    id: Seq<u8>,
    before: AllowView,
    other: Seq<u8>,
)
    requires
        other != id,
    ensures
        ({
            let after = undone(now, id, before).peers;
            &&& after.dom().contains(id) <==> before.peers.dom().contains(id)
            &&& after.dom().contains(id) ==> after[id] == before.peers[id]
            &&& after.dom().contains(other) <==> now.peers.dom().contains(other)
            &&& now.peers.dom().contains(other) ==> after[other] == now.peers[other]
        }),
{
}

/// A stored form whose texts are all identities gives every one of them, with what is stored of it
/// last, and no other peer.
pub proof fn law_stored_peers_all_count(peers: Seq<(String, PeerInfo)>, n: int, id: Seq<u8>)
    requires
        0 <= n <= peers.len(),
        forall|i: int| 0 <= i < n ==> parsed_endpoint_key((#[trigger] peers[i]).0@) is Ok,
    ensures
        stored_peers(peers, n) matches Ok(m) && (m.dom().contains(id) <==> exists|i: int|
            0 <= i < n && parsed_endpoint_key((#[trigger] peers[i]).0@)->Ok_0 == id),
        forall|i: int|
            0 <= i < n && parsed_endpoint_key((#[trigger] peers[i]).0@)->Ok_0 == id && (forall|
                j: int,
            |
                i < j < n ==> parsed_endpoint_key((#[trigger] peers[j]).0@)->Ok_0 != id)
                ==> stored_peers(peers, n)->Ok_0[id] == peers[i].1,
    decreases n,
{
    if n > 0 {
        law_stored_peers_all_count(peers, n - 1, id);
        let last = peers[n - 1];
        assert(parsed_endpoint_key(last.0@) is Ok);
        if parsed_endpoint_key(last.0@)->Ok_0 == id {
            assert(parsed_endpoint_key(peers[n - 1].0@)->Ok_0 == id);
        }
    }
}

/// A stored form with a text that is no identity is refused, for the first such text.
pub proof fn law_stored_peers_are_checked(peers: Seq<(String, PeerInfo)>, n: int, k: int)
    requires
        0 <= k < n <= peers.len(),
        parsed_endpoint_key(peers[k].0@) is Err,
        forall|i: int| 0 <= i < k ==> parsed_endpoint_key((#[trigger] peers[i]).0@) is Ok,
    ensures
        stored_peers(peers, n) == Err::<Map<Seq<u8>, PeerInfo>, (Seq<char>, Seq<char>)>(
            (peers[k].0@, parsed_endpoint_key(peers[k].0@)->Err_0),
        ),
    decreases n,
{
    if n - 1 > k {
        law_stored_peers_are_checked(peers, n - 1, k);
    } else {
        law_stored_peers_all_count(peers, k, Seq::empty());
    }
}

/// The stored form of a list holds every peer of it, in order, under the hexadecimal text of its
/// key and with what is known of it.
pub proof fn law_stored_form_is_complete(
    s: AllowSnapshot,
    entries: Seq<(PeerId, PeerInfo)>,
    i: int,
)
    requires
        stores(s, entries),
        0 <= i < entries.len(),
    ensures
        s.version == 2,
        s.peers@.len() == entries.len(),
        s.peers@[i].0@ == hex_text(entries[i].0@),
        s.peers@[i].1 == entries[i].1,
{
    let stored = s.peers@[i];
}

/// Two peers are known alike exactly where their names for people and their times agree.
pub proof fn law_known_alike(a: PeerInfo, b: PeerInfo)
    ensures
        same_info(a, b) ==> a.added_at == b.added_at && a.last_seen_at == b.last_seen_at && (
        a.label is Some <==> b.label is Some) && (a.label is Some ==> a.label->0@ == b.label->0@),
        same_info(a, a),
        same_info(a, b) ==> same_info(b, a),
{
}

} // verus!
