//! Joining the group: the gossip topic and who is asked first.
use crate::bytes::to_vec;
use crate::digest::{blake3_digest, blake3_hash};
use crate::peer_id::PeerId;
use crate::ticket::EndpointTicket;
use vstd::prelude::*;

verus! {

/// What stands in front of the group secret when the topic is derived from it: the text
/// `p2p-dir-sync/v1/topic` and a zero byte.
pub const TOPIC_DOMAIN: [u8; 22] = [
    112, 50, 112, 45, 100, 105, 114, 45, 115, 121, 110, 99, 47, 118, 49, 47, 116, 111, 112, 105,
    99, 0,
];

/// The topic on which the peers of a group tell each other of changes.
#[derive(Clone, Copy, Debug, PartialEq, Eq)]
pub struct TopicId {
    bytes: [u8; 32],
}

impl View for TopicId {
    type V = Seq<u8>;

    closed spec fn view(&self) -> Seq<u8> {
        self.bytes@
    }
}

impl TopicId {
    /// The bytes of the topic.
    pub fn as_bytes(&self) -> (r: &[u8; 32])
        ensures
            r@ == self@,
    {
        &self.bytes
    }
}

/// The topic of the group with this secret.
pub open spec fn topic_of(folder_secret: Seq<u8>) -> Seq<u8> {
    blake3_digest(TOPIC_DOMAIN@ + folder_secret)
}

/// The topic of the group with this secret: the BLAKE3 hash of [`TOPIC_DOMAIN`] and the secret.
pub fn derive_topic_id(folder_secret: &[u8; 16]) -> (t: TopicId)
    ensures
        t@ == topic_of(folder_secret@),
{
    let domain = TOPIC_DOMAIN;
    let mut input: Vec<u8> = to_vec(&domain);
    input.extend_from_slice(folder_secret);
    proof {
        assert(input@ =~= TOPIC_DOMAIN@ + folder_secret@);
    }
    TopicId { bytes: blake3_hash(input.as_slice()) }
}

/// How the group is joined.
#[derive(Debug)]
pub struct Subscription {
    /// The topic.
    pub topic: TopicId,
    /// Whether the addresses of the known peers have to be made known first.
    pub register_addresses: bool,
    /// The peers that are asked first.
    pub bootstrap: Vec<PeerId>,
}

/// How the group is joined at the start: not at all without a secret. The known peers are asked
/// first, in their order.
pub fn plan_subscription(
    folder_secret: Option<&[u8; 16]>,
    peers: &Vec<EndpointTicket>,
) -> (r: Option<Subscription>)
    ensures
        r is Some <==> folder_secret is Some,
        r matches Some(s) ==> s.topic@ == topic_of(folder_secret->0@) && s.register_addresses == (
        peers@.len() > 0) && s.bootstrap@.len() == peers@.len() && forall|i: int|
            0 <= i < peers@.len() ==> (#[trigger] s.bootstrap@[i])@ == peers@[i].spec_id(),
{
    match folder_secret {
        None => None,
        Some(secret) => {
            let topic = derive_topic_id(secret);
            let mut bootstrap: Vec<PeerId> = Vec::new();
            let mut i: usize = 0;
            while i < peers.len()
                invariant
                    i <= peers@.len(),
                    bootstrap@.len() == i,
                    forall|j: int|
                        0 <= j < i ==> (#[trigger] bootstrap@[j])@ == peers@[j].spec_id(),
                decreases peers@.len() - i,
            {
                bootstrap.push(peers[i].id());
                i += 1;
            }
            Some(Subscription { topic, register_addresses: peers.len() > 0, bootstrap })
        },
    }
}

/// The topic of a group rests on its secret alone, and is the hash of the domain and the whole
/// secret: so peers with one secret meet, and what is hashed differs where the secrets do.
pub proof fn law_topic_rests_on_the_secret(a: Seq<u8>, b: Seq<u8>)
    ensures
        topic_of(a) == blake3_digest(TOPIC_DOMAIN@ + a),
        a != b ==> TOPIC_DOMAIN@ + a != TOPIC_DOMAIN@ + b,
{
    let n = TOPIC_DOMAIN@.len() as int;
    let x = TOPIC_DOMAIN@ + a;
    let y = TOPIC_DOMAIN@ + b;
    assert(x.subrange(n, x.len() as int) =~= a);
    assert(y.subrange(n, y.len() as int) =~= b);
}

} // verus!
