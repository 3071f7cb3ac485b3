//! The peers that are asked first when the group is joined.
use crate::atomic_write::{private_file, AtomicWrite, NoParent};
use crate::path_text::parent_path;
use crate::text::{decimal, decimal_text};
use crate::ticket::EndpointTicket;
use vstd::prelude::*;

verus! {

/// The version of the stored form.
pub const BOOTSTRAP_SCHEMA_VERSION: u32 = 1;

/// The stored form of the peers.
#[derive(Debug, PartialEq, Eq)]
pub struct BootstrapSnapshot {
    /// The version of the stored form.
    pub version: u32,
    /// The peers.
    pub peers: Vec<EndpointTicket>,
}

/// A stored form of another version.
#[derive(Debug, Clone, Copy, PartialEq, Eq)]
pub struct BootstrapVersion {
    /// Its version.
    pub got: u32,
}

impl BootstrapVersion {
    /// The text of the error.
    pub fn message(&self) -> (r: String)
        ensures
            r@ == "bootstrap-peers schema version mismatch: expected "@ + decimal_text(
                BOOTSTRAP_SCHEMA_VERSION as nat,
            ) + ", got "@ + decimal_text(self.got as nat),
    {
        let expected = decimal(BOOTSTRAP_SCHEMA_VERSION as u64);
        let got = decimal(self.got as u64);
        "bootstrap-peers schema version mismatch: expected ".to_owned().concat(
            expected.as_str(),
        ).concat(", got ").concat(got.as_str())
    }
}

/// The peers of the stored form; none where there is no file.
pub fn load_bootstrap_peers(stored: Option<BootstrapSnapshot>) -> (r: Result<
    Vec<EndpointTicket>,
    BootstrapVersion,
>)
    ensures
        match stored {
            None => r matches Ok(peers) && peers@.len() == 0,
            Some(s) => if s.version == BOOTSTRAP_SCHEMA_VERSION {
                r matches Ok(peers) && peers == s.peers
            } else {
                r matches Err(e) && e.got == s.version
            },
        },
{
    match stored {
        None => Ok(Vec::new()),
        Some(s) => {
            if s.version != BOOTSTRAP_SCHEMA_VERSION {
                Err(BootstrapVersion { got: s.version })
            } else {
                Ok(s.peers)
            }
        },
    }
}

/// The stored form of the peers. It is read back as them.
pub fn bootstrap_snapshot(peers: Vec<EndpointTicket>) -> (s: BootstrapSnapshot)
    ensures
        s.version == BOOTSTRAP_SCHEMA_VERSION,
        s.peers == peers,
{
    BootstrapSnapshot { version: BOOTSTRAP_SCHEMA_VERSION, peers }
}

/// The file that keeps the peers: `body` is the stored form as it is written out.
pub fn save_bootstrap_peers(path: &str, body: Vec<u8>) -> (r: Result<AtomicWrite, NoParent>)
    ensures
        r is Ok <==> parent_path(path@) is Some,
        r matches Ok(w) ==> Some(w.dir@) == parent_path(path@) && w.private && w.prefix@
            == ".bootstrap-peers."@ && w.target@ == path@ && w.content == body,
        r matches Err(e) ==> e.target@ == path@,
{
    private_file(path, ".bootstrap-peers.", body)
}

/// The keys of the peers, in their order.
pub open spec fn peer_keys(peers: Seq<EndpointTicket>) -> Seq<Seq<u8>> {
    peers.map_values(|t: EndpointTicket| t.spec_id())
}

/// The first peer with this key; the number of peers where there is none.
pub open spec fn peer_place(peers: Seq<EndpointTicket>, id: Seq<u8>) -> int
    decreases peers.len(),
{
    if peers.len() == 0 {
        0
    } else if peers[0].spec_id() == id {
        0
    } else {
        1 + peer_place(peers.subrange(1, peers.len() as int), id)
    }
}

/// The peer takes the place of the one with the same key, or comes last.
pub open spec fn added_or_replaced(peers: Seq<EndpointTicket>, new: EndpointTicket) -> Seq<
    EndpointTicket,
> {
    let at = peer_place(peers, new.spec_id());
    if at < peers.len() {
        peers.update(at, new)
    } else {
        peers.push(new)
    }
}

proof fn lemma_place(peers: Seq<EndpointTicket>, id: Seq<u8>)
    ensures
        0 <= peer_place(peers, id) <= peers.len(),
        peer_place(peers, id) < peers.len() ==> peers[peer_place(peers, id)].spec_id() == id,
        forall|i: int|
            0 <= i < peer_place(peers, id) ==> (#[trigger] peers[i]).spec_id() != id,
    decreases peers.len(),
{
    if peers.len() > 0 && peers[0].spec_id() != id {
        let rest = peers.subrange(1, peers.len() as int);
        lemma_place(rest, id);
        assert forall|i: int| 0 <= i < peer_place(peers, id) implies (
        #[trigger] peers[i]).spec_id() != id by {
            if i > 0 {
                assert(rest[i - 1] == peers[i]);
            }
        }
    }
}

proof fn lemma_place_is(peers: Seq<EndpointTicket>, id: Seq<u8>, at: int)
    requires
        0 <= at <= peers.len(),
        at < peers.len() ==> peers[at].spec_id() == id,
        forall|i: int| 0 <= i < at ==> (#[trigger] peers[i]).spec_id() != id,
    ensures
        peer_place(peers, id) == at,
{
    lemma_place(peers, id);
    if peer_place(peers, id) < at {
        assert(peers[peer_place(peers, id)].spec_id() != id);
    }
    if at < peer_place(peers, id) {
        assert(peers[at].spec_id() == id);
    }
}

/// Puts a peer in the place of the one with the same key, or behind the others.
pub fn add_or_replace(peers: &mut Vec<EndpointTicket>, new: EndpointTicket)
    ensures
        final(peers)@ == added_or_replaced(old(peers)@, new),
{
    let id = new.id();
    let mut i: usize = 0;
    while i < peers.len()
        invariant
            i <= peers@.len(),
            peers@ == old(peers)@,
            id@ == new.spec_id(),
            forall|j: int| 0 <= j < i ==> (#[trigger] peers@[j]).spec_id() != id@,
        decreases peers@.len() - i,
    {
        if peers[i].id().same(&id) {
            proof {
                lemma_place_is(peers@, id@, i as int);
            }
            peers[i] = new;
            return;
        }
        i += 1;
    }
    proof {
        lemma_place_is(peers@, id@, peers@.len() as int);
    }
    peers.push(new);
}

/// A peer that was added is there.
pub proof fn lemma_added_is_there(peers: Seq<EndpointTicket>, new: EndpointTicket)
    ensures
        added_or_replaced(peers, new).contains(new),
{
    lemma_place(peers, new.spec_id());
    let at = peer_place(peers, new.spec_id());
    assert(added_or_replaced(peers, new)[at] == new);
}

/// No two peers have the same key.
pub open spec fn keys_differ(peers: Seq<EndpointTicket>) -> bool {
    forall|i: int, j: int|
        0 <= i < j < peers.len() ==> (#[trigger] peers[i]).spec_id() != (
        #[trigger] peers[j]).spec_id()
}

/// Where no two peers have the same key, that stays so; the peer is there afterwards; adding it
/// again changes nothing; and there is one more peer only where its key is new.
pub proof fn law_one_entry_for_each_peer(peers: Seq<EndpointTicket>, new: EndpointTicket)
    requires
        keys_differ(peers),
    ensures
        ({
            let after = added_or_replaced(peers, new);
            &&& keys_differ(after)
            &&& after.contains(new)
            &&& added_or_replaced(after, new) == after
            &&& after.len() == if peer_keys(peers).contains(new.spec_id()) {
                peers.len()
            } else {
                peers.len() + 1
            }
        }),
{
    let id = new.spec_id();
    lemma_place(peers, id);
    let at = peer_place(peers, id);
    let after = added_or_replaced(peers, new);
    if at < peers.len() {
        assert(after[at] == new);
        assert(peer_keys(peers)[at] == id);
        assert forall|i: int| 0 <= i < at implies (#[trigger] after[i]).spec_id() != id by {
            assert(after[i] == peers[i]);
        }
        lemma_place_is(after, id, at);
        assert(after.update(at, new) =~= after);
        assert forall|i: int, j: int| 0 <= i < j < after.len() implies (
        #[trigger] after[i]).spec_id() != (#[trigger] after[j]).spec_id() by {
            let a = peers[i];
            let b = peers[j];
            assert(a.spec_id() != b.spec_id());
        }
    } else {
        assert(after[peers.len() as int] == new);
        if peer_keys(peers).contains(id) {
            let k = choose|k: int| 0 <= k < peer_keys(peers).len() && peer_keys(peers)[k] == id;
            assert(peers[k].spec_id() == id);
        }
        assert forall|i: int| 0 <= i < peers.len() implies (#[trigger] after[i]).spec_id()
            != id by {
            assert(after[i] == peers[i]);
        }
        lemma_place_is(after, id, peers.len() as int);
        assert(after.update(peers.len() as int, new) =~= after);
    }
}

/// Adding a peer leaves the others, at their places.
pub proof fn law_other_peers_stay(peers: Seq<EndpointTicket>, new: EndpointTicket, i: int)
    requires
        0 <= i < peers.len(),
        peers[i].spec_id() != new.spec_id(),
    ensures
        added_or_replaced(peers, new).len() >= peers.len(),
        added_or_replaced(peers, new)[i] == peers[i],
{
    lemma_place(peers, new.spec_id());
}

} // verus!
