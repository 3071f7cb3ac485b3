//! Peer identities: the public keys under which endpoints are known.
use crate::hex::hex_text;
use crate::text::same_bytes;
use vstd::prelude::*;

verus! {

/// Whether `iroh_base::EndpointId::from_bytes` accepts these bytes as a public key.
pub uninterp spec fn is_endpoint_key(bytes: Seq<u8>) -> bool;

/// What `iroh_base::EndpointId` parses from a text: the 32 bytes of the key, or the message of
/// the parse error.
pub uninterp spec fn parsed_endpoint_key(text: Seq<char>) -> Result<Seq<u8>, Seq<char>>;

/// Calls `iroh_base::EndpointId::from_bytes`. Claims that whether it accepts depends on the bytes
/// alone.
#[verifier::external_body]
fn accepts_key(bytes: &[u8; 32]) -> (r: bool)
    ensures
        r == is_endpoint_key(bytes@),
{
    iroh_base::EndpointId::from_bytes(bytes).is_ok()
}

/// Calls `FromStr` of `iroh_base::EndpointId`. Claims that the result depends on the text alone,
/// that a parsed key is one that `from_bytes` accepts, and that the lower-case hexadecimal text
/// of an accepted key is read back as that key.
#[verifier::external_body]
fn parse_key(text: &str) -> (r: Result<[u8; 32], String>)
    ensures
        r matches Ok(bytes) ==> (parsed_endpoint_key(text@) matches Ok(key) && key == bytes@)
            && is_endpoint_key(bytes@),
        r matches Err(e) ==> (parsed_endpoint_key(text@) matches Err(m) && m == e@),
        r matches Ok(bytes) ==> forall|key: Seq<u8>|
            key.len() == 32 && is_endpoint_key(key) && text@ == #[trigger] hex_text(key) ==> bytes@
                == key,
        r is Err ==> forall|key: Seq<u8>|
            key.len() == 32 && is_endpoint_key(key) ==> text@ != #[trigger] hex_text(key),
{
    match text.parse::<iroh_base::EndpointId>() {
        Ok(id) => Ok(*id.as_bytes()),
        Err(e) => Err(e.to_string()),
    }
}

/// The identity of a peer: the 32 bytes of a public key.
#[derive(Clone, Copy, Debug, PartialEq, Eq)]
pub struct PeerId {
    bytes: [u8; 32],
}

impl View for PeerId {
    type V = Seq<u8>;

    closed spec fn view(&self) -> Seq<u8> {
        self.bytes@
    }
}

impl PeerId {
    #[verifier::type_invariant]
    spec fn well_formed(self) -> bool {
        is_endpoint_key(self.bytes@)
    }

    /// The peer whose public key has these bytes; `None` where they are no public key.
    pub fn from_bytes(bytes: [u8; 32]) -> (r: Option<PeerId>)
        ensures
            r is Some <==> is_endpoint_key(bytes@),
            r matches Some(id) ==> id@ == bytes@,
    {
        if accepts_key(&bytes) {
            Some(PeerId { bytes })
        } else {
            None
        }
    }

    /// Reads the text of a peer identity; the error is the reason given by the key parser.
    pub fn parse(text: &str) -> (r: Result<PeerId, String>)
        ensures
            r matches Ok(id) ==> (parsed_endpoint_key(text@) matches Ok(key) && key == id@),
            r matches Err(e) ==> (parsed_endpoint_key(text@) matches Err(m) && m == e@),
            forall|key: Seq<u8>|
                key.len() == 32 && is_endpoint_key(key) && text@ == #[trigger] hex_text(key) ==> (
                r matches Ok(id) && id@ == key),
    {
        match parse_key(text) {
            Ok(bytes) => Ok(PeerId { bytes }),
            Err(e) => Err(e),
        }
    }

    /// The bytes of the public key.
    pub fn as_bytes(&self) -> (r: [u8; 32])
        ensures
            r@ == self@,
            r@.len() == 32,
            is_endpoint_key(r@),
    {
        proof {
            use_type_invariant(self);
        }
        self.bytes
    }

    /// The text of the identity: 64 lower-case hexadecimal digits.
    pub fn text(&self) -> (r: String)
        ensures
            r@ == hex_text(self@),
            self@.len() == 32,
            is_endpoint_key(self@),
    {
        proof {
            use_type_invariant(self);
        }
        crate::hex::encode(&self.bytes)
    }

    /// Whether two identities are the same key.
    pub fn same(&self, other: &PeerId) -> (r: bool)
        ensures
            r == (self@ == other@),
    {
        same_bytes(&self.bytes, &other.bytes)
    }
}

/// The hash of the contents of a file.
#[derive(Clone, Copy, Debug, PartialEq, Eq)]
pub struct BlobHash {
    /// The 32 bytes of the hash.
    pub bytes: [u8; 32],
}

impl View for BlobHash {
    type V = Seq<u8>;

    open spec fn view(&self) -> Seq<u8> {
        self.bytes@
    }
}

impl BlobHash {
    /// Whether two hashes are the same.
    pub fn same(&self, other: &BlobHash) -> (r: bool)
        ensures
            r == (self@ == other@),
    {
        same_bytes(&self.bytes, &other.bytes)
    }

    /// The text of the hash: 64 lower-case hexadecimal digits.
    pub fn text(&self) -> (r: String)
        ensures
            r@ == hex_text(self@),
    {
        crate::hex::encode(&self.bytes)
    }
}

} // verus!
