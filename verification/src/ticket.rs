//! Invite tickets: where to reach the inviting peer, and the secret of the group.
use crate::bytes::array16;
use crate::peer_id::{is_endpoint_key, PeerId};
use crate::text::{
    ascii_upper, chars_of, decimal, decimal_text, matches_at, starts_with_text, string_of,
    text_at, to_upper,
};
use vstd::prelude::*;

verus! {

/// What an invite ticket begins with.
pub const INVITE_PREFIX: &'static str = "dirhive1-";

/// The number of bytes of a group secret.
pub const SECRET_BYTES: usize = 16;

/// The name under which a ticket holds the endpoint ticket.
pub const ENDPOINT_FIELD: &'static str = "endpoint_ticket";

/// The name under which a ticket holds the group secret.
pub const SECRET_FIELD: &'static str = "folder_secret";

/// The text of `base32::encode` in the alphabet of RFC 4648 without padding.
pub uninterp spec fn base32_text(bytes: Seq<u8>) -> Seq<char>;

/// What `base32::decode` gives in the alphabet of RFC 4648 without padding.
pub uninterp spec fn base32_bytes(text: Seq<char>) -> Option<Seq<u8>>;

/// The JSON object of `serde_json` with two text members.
pub uninterp spec fn json_pair(
    k1: Seq<char>,
    v1: Seq<char>,
    k2: Seq<char>,
    v2: Seq<char>,
) -> Seq<u8>;

/// What `serde_json` finds under two member names of a JSON object, or its message where the bytes
/// are no JSON object. A member is `None` where it is missing and `Some(None)` where it is no
/// text. Of members with the same name the last one counts.
pub uninterp spec fn json_members(
    bytes: Seq<u8>,
    k1: Seq<char>,
    k2: Seq<char>,
) -> Result<(Option<Option<Seq<char>>>, Option<Option<Seq<char>>>), Seq<char>>;

/// The two texts of a JSON array with exactly two members that are texts, as `serde_json` reads
/// it; `None` where the bytes are none.
pub uninterp spec fn json_texts(bytes: Seq<u8>) -> Option<(Seq<char>, Seq<char>)>;

/// What `iroh_tickets::endpoint::EndpointTicket` parses from a text: the ticket written out
/// again, and the key of the endpoint; or the message of the parse error.
pub uninterp spec fn parsed_ticket(text: Seq<char>) -> Result<(Seq<char>, Seq<u8>), Seq<char>>;

/// An upper-case letter or a digit from 2 to 7.
pub open spec fn is_base32_char(c: char) -> bool {
    ('A' <= c && c <= 'Z') || ('2' <= c && c <= '7')
}

/// Calls `base32::encode` with the alphabet of RFC 4648 without padding. Claims that the text
/// depends on the bytes alone, that it is made of the characters of the alphabet, and that
/// `base32::decode` reads the bytes back from it.
#[verifier::external_body]
fn base32_encode(bytes: &[u8]) -> (r: String)
    ensures
        r@ == base32_text(bytes@),
        base32_bytes(r@) == Some(bytes@),
        forall|i: int| 0 <= i < r@.len() ==> is_base32_char(#[trigger] r@[i]),
{
    base32::encode(base32::Alphabet::Rfc4648 { padding: false }, bytes)
}

/// Calls `base32::decode` with the alphabet of RFC 4648 without padding. Claims that the result
/// depends on the text alone.
#[verifier::external_body]
fn base32_decode(text: &str) -> (r: Option<Vec<u8>>)
    ensures
        r matches Some(bytes) ==> base32_bytes(text@) == Some(bytes@),
        r is None ==> base32_bytes(text@) is None,
{
    base32::decode(base32::Alphabet::Rfc4648 { padding: false }, text)
}

/// Both members are there, with these texts.
pub open spec fn two_texts(v1: Seq<char>, v2: Seq<char>) -> Result<
    (Option<Option<Seq<char>>>, Option<Option<Seq<char>>>),
    Seq<char>,
> {
    Ok((Some(Some(v1)), Some(Some(v2))))
}

/// Calls `serde_json::to_vec` on a map with two text members. Claims that the bytes depend on
/// the names and texts alone, and that the two texts are found in them again.
#[verifier::external_body]
fn json_write(k1: &str, v1: &str, k2: &str, v2: &str) -> (r: Vec<u8>)
    requires
        k1@ != k2@,
    ensures
        r@ == json_pair(k1@, v1@, k2@, v2@),
        json_members(r@, k1@, k2@) == two_texts(v1@, v2@),
{
    let members = std::collections::BTreeMap::from([(k1, v1), (k2, v2)]);
    serde_json::to_vec(&members).expect("a map of texts is serialised")
}

/// A member as a mathematical value.
pub open spec fn member_view(m: Option<Option<String>>) -> Option<Option<Seq<char>>> {
    match m {
        None => None,
        Some(None) => Some(None),
        Some(Some(text)) => Some(Some(text@)),
    }
}

/// Calls `serde_json::from_slice` for a JSON object and takes two members out of it. Claims that
/// the result depends on the bytes and the names alone.
#[verifier::external_body]
fn json_read(bytes: &[u8], k1: &str, k2: &str) -> (r: Result<
    (Option<Option<String>>, Option<Option<String>>),
    String,
>)
    ensures
        r matches Ok(m) ==> (json_members(bytes@, k1@, k2@) matches Ok(p) && p.0 == member_view(m.0)
            && p.1 == member_view(m.1)),
        r matches Err(e) ==> (json_members(bytes@, k1@, k2@) matches Err(m) && m == e@),
{
    match serde_json::from_slice::<serde_json::Map<String, serde_json::Value>>(bytes) {
        Ok(members) => {
            let m1 = match members.get(k1) {
                Some(v) => Some(v.as_str().map(str::to_owned)),
                None => None,
            };
            let m2 = match members.get(k2) {
                Some(v) => Some(v.as_str().map(str::to_owned)),
                None => None,
            };
            Ok((m1, m2))
        },
        Err(e) => Err(e.to_string()),
    }
}

/// Calls `serde_json::from_slice` for a pair of texts. Claims that the result depends on the bytes
/// alone.
#[verifier::external_body]
fn json_read_list(bytes: &[u8]) -> (r: Option<(String, String)>)
    ensures
        r matches Some(pair) ==> json_texts(bytes@) == Some((pair.0@, pair.1@)),
        r is None ==> json_texts(bytes@) is None,
{
    serde_json::from_slice::<(String, String)>(bytes).ok()
}

/// Calls `FromStr` and `Display` of `iroh_tickets::endpoint::EndpointTicket`. Claims that the
/// result depends on the text alone and that the key is a public key. It is not claimed that the
/// ticket written out is read back as the same ticket: a URL in it may change when it is parsed
/// again.
#[verifier::external_body]
fn parse_endpoint_ticket(text: &str) -> (r: Result<(String, [u8; 32]), String>)
    ensures
        r matches Ok(t) ==> (parsed_ticket(text@) matches Ok(p) && p.0 == t.0@ && p.1 == t.1@)
            && is_endpoint_key(t.1@),
        r matches Err(e) ==> (parsed_ticket(text@) matches Err(m) && m == e@),
{
    match text.parse::<iroh_tickets::endpoint::EndpointTicket>() {
        Ok(t) => Ok((t.to_string(), *t.endpoint_addr().id.as_bytes())),
        Err(e) => Err(e.to_string()),
    }
}

/// How an endpoint is reached: its key and addresses, in the text form of endpoint tickets.
#[derive(Debug, PartialEq, Eq)]
pub struct EndpointTicket {
    text: String,
    id: PeerId,
}

impl Clone for EndpointTicket {
    fn clone(&self) -> (r: EndpointTicket)
        ensures
            r == *self,
    {
        EndpointTicket { text: self.text.clone(), id: self.id }
    }
}

/// A ticket text that is written out again as itself, with the key that it holds.
pub open spec fn is_ticket_text(text: Seq<char>, id: Seq<u8>) -> bool {
    parsed_ticket(text) matches Ok(p) && p.0 == text && p.1 == id
}

impl EndpointTicket {
    /// The text of the ticket.
    pub closed spec fn spec_text(&self) -> Seq<char> {
        self.text@
    }

    /// The key of the endpoint.
    pub closed spec fn spec_id(&self) -> Seq<u8> {
        self.id@
    }

    /// Reads an endpoint ticket; the error is the reason given by the ticket parser.
    pub fn parse(text: &str) -> (r: Result<EndpointTicket, String>)
        ensures
            r matches Ok(t) ==> (parsed_ticket(text@) matches Ok(p) && p.0 == t.spec_text() && p.1
                == t.spec_id()),
            r matches Err(e) ==> (parsed_ticket(text@) matches Err(m) && m == e@),
    {
        match parse_endpoint_ticket(text) {
            Ok((canonical, key)) => {
                match PeerId::from_bytes(key) {
                    Some(id) => Ok(EndpointTicket { text: canonical, id }),
                    None => {
                        assert(false);
                        Err(String::new())
                    },
                }
            },
            Err(e) => Err(e),
        }
    }

    /// The text of the ticket.
    pub fn text(&self) -> (r: &str)
        ensures
            r@ == self.spec_text(),
    {
        self.text.as_str()
    }

    /// Whether the text of the ticket is read back as this ticket.
    pub fn is_read_back(&self) -> (r: bool)
        ensures
            r == is_ticket_text(self.spec_text(), self.spec_id()),
    {
        match EndpointTicket::parse(self.text.as_str()) {
            Ok(again) => *again.text.as_str() == *self.text.as_str() && again.id.same(&self.id),
            Err(_) => false,
        }
    }

    /// The endpoint.
    pub fn id(&self) -> (r: PeerId)
        ensures
            r@ == self.spec_id(),
    {
        self.id
    }
}

/// What a peer hands out to invite another: how to reach it, and the secret of its group.
#[derive(Clone, Debug, PartialEq, Eq)]
pub struct InviteTicket {
    /// How the inviting peer is reached.
    pub endpoint: EndpointTicket,
    /// The secret of the group.
    pub folder_secret: [u8; 16],
}

/// An invite ticket as a mathematical value.
pub struct TicketView {
    pub endpoint: Seq<char>,
    pub id: Seq<u8>,
    pub folder_secret: Seq<u8>,
}

impl View for InviteTicket {
    type V = TicketView;

    open spec fn view(&self) -> TicketView {
        TicketView {
            endpoint: self.endpoint.spec_text(),
            id: self.endpoint.spec_id(),
            folder_secret: self.folder_secret@,
        }
    }
}

/// Why a text is no invite ticket.
#[derive(Clone, Debug, PartialEq, Eq)]
pub enum TicketError {
    /// The text does not begin with [`INVITE_PREFIX`].
    MissingPrefix,
    /// Behind the prefix stands no base32 text.
    EnvelopeEncoding,
    /// The base32 text holds no JSON object with the two members, for the reason given.
    EnvelopeJson(String),
    /// The endpoint ticket is not accepted, for the reason given.
    Endpoint(String),
    /// The secret is no base32 text.
    SecretEncoding,
    /// The secret has another number of bytes than [`SECRET_BYTES`].
    SecretLength(usize),
}

/// A ticket error as a mathematical value.
pub enum TicketProblem {
    MissingPrefix,
    EnvelopeEncoding,
    EnvelopeJson(Seq<char>),
    Endpoint(Seq<char>),
    SecretEncoding,
    SecretLength(nat),
}

impl View for TicketError {
    type V = TicketProblem;

    open spec fn view(&self) -> TicketProblem {
        match self {
            TicketError::MissingPrefix => TicketProblem::MissingPrefix,
            TicketError::EnvelopeEncoding => TicketProblem::EnvelopeEncoding,
            TicketError::EnvelopeJson(e) => TicketProblem::EnvelopeJson(e@),
            TicketError::Endpoint(e) => TicketProblem::Endpoint(e@),
            TicketError::SecretEncoding => TicketProblem::SecretEncoding,
            TicketError::SecretLength(n) => TicketProblem::SecretLength(*n as nat),
        }
    }
}

impl TicketError {
    /// The text of the error.
    pub open spec fn message_text(&self) -> Seq<char> {
        match self {
            TicketError::MissingPrefix => "missing `"@ + INVITE_PREFIX@ + "` prefix"@,
            TicketError::EnvelopeEncoding => "base32 decode failed for InviteTicket envelope"@,
            TicketError::EnvelopeJson(e) => "deserialize InviteTicket json: "@ + e@,
            TicketError::Endpoint(e) => "invalid endpoint_ticket: "@ + e@,
            TicketError::SecretEncoding => "base32 decode failed for folder_secret"@,
            TicketError::SecretLength(n) => "folder_secret must be 16 bytes, got "@ + decimal_text(
                *n as nat,
            ),
        }
    }

    /// The text of the error.
    pub fn message(&self) -> (r: String)
        ensures
            r@ == self.message_text(),
    {
        match self {
            TicketError::MissingPrefix => "missing `".to_owned().concat(INVITE_PREFIX).concat(
                "` prefix",
            ),
            TicketError::EnvelopeEncoding => {
                "base32 decode failed for InviteTicket envelope".to_owned()
            },
            TicketError::EnvelopeJson(e) => "deserialize InviteTicket json: ".to_owned().concat(
                e.as_str(),
            ),
            TicketError::Endpoint(e) => "invalid endpoint_ticket: ".to_owned().concat(e.as_str()),
            TicketError::SecretEncoding => "base32 decode failed for folder_secret".to_owned(),
            TicketError::SecretLength(n) => {
                let got = decimal(*n as u64);
                "folder_secret must be 16 bytes, got ".to_owned().concat(got.as_str())
            },
        }
    }
}

/// Every character in upper case.
pub open spec fn upper_text(s: Seq<char>) -> Seq<char> {
    s.map_values(|c: char| ascii_upper(c))
}

/// What stands behind the prefix, in upper case.
pub open spec fn payload_text(s: Seq<char>) -> Option<Seq<char>> {
    if starts_with_text(s, INVITE_PREFIX@) {
        Some(upper_text(s.subrange(INVITE_PREFIX@.len() as int, s.len() as int)))
    } else {
        None
    }
}

/// The ticket of a parsed endpoint ticket and the bytes of a secret.
pub open spec fn assembled(
    endpoint: Result<(Seq<char>, Seq<u8>), Seq<char>>,
    secret: Option<Seq<u8>>,
) -> Result<TicketView, TicketProblem> {
    match endpoint {
        Err(e) => Err(TicketProblem::Endpoint(e)),
        Ok(p) => match secret {
            None => Err(TicketProblem::SecretEncoding),
            Some(bytes) => if bytes.len() != SECRET_BYTES {
                Err(TicketProblem::SecretLength(bytes.len()))
            } else {
                Ok(TicketView { endpoint: p.0, id: p.1, folder_secret: bytes })
            },
        },
    }
}

/// The text of a member, or why there is none.
pub open spec fn member_text(m: Option<Option<Seq<char>>>, name: Seq<char>) -> Result<
    Seq<char>,
    TicketProblem,
> {
    match m {
        Some(Some(text)) => Ok(text),
        Some(None) => Err(TicketProblem::EnvelopeJson("field is no string: `"@ + name + "`"@)),
        None => Err(TicketProblem::EnvelopeJson("missing field `"@ + name + "`"@)),
    }
}

/// The two texts of an envelope: those of the two members of an object, or of an array of two.
pub open spec fn envelope_texts(
    members: Result<(Option<Option<Seq<char>>>, Option<Option<Seq<char>>>), Seq<char>>,
    list: Option<(Seq<char>, Seq<char>)>,
) -> Result<(Seq<char>, Seq<char>), TicketProblem> {
    match members {
        Ok(m) => match member_text(m.0, ENDPOINT_FIELD@) {
            Err(e) => Err(e),
            Ok(a) => match member_text(m.1, SECRET_FIELD@) {
                Err(e) => Err(e),
                Ok(b) => Ok((a, b)),
            },
        },
        Err(reason) => match list {
            Some(pair) => Ok(pair),
            None => Err(TicketProblem::EnvelopeJson(reason)),
        },
    }
}

/// The ticket in the bytes of an envelope.
pub open spec fn opened(bytes: Seq<u8>) -> Result<TicketView, TicketProblem> {
    match envelope_texts(json_members(bytes, ENDPOINT_FIELD@, SECRET_FIELD@), json_texts(bytes)) {
        Err(e) => Err(e),
        Ok(m) => assembled(parsed_ticket(m.0), base32_bytes(upper_text(m.1))),
    }
}

/// The ticket that a text stands for.
pub open spec fn decoded_ticket(s: Seq<char>) -> Result<TicketView, TicketProblem> {
    match payload_text(s) {
        None => Err(TicketProblem::MissingPrefix),
        Some(payload) => match base32_bytes(payload) {
            None => Err(TicketProblem::EnvelopeEncoding),
            Some(bytes) => opened(bytes),
        },
    }
}

/// The text of a ticket.
pub open spec fn encoded_ticket(t: TicketView) -> Seq<char> {
    INVITE_PREFIX@ + base32_text(
        json_pair(ENDPOINT_FIELD@, t.endpoint, SECRET_FIELD@, base32_text(t.folder_secret)),
    )
}

/// Behind the prefix, upper and lower case of the letters `a` to `z` make no difference.
pub proof fn law_ticket_case(s: Seq<char>, t: Seq<char>)
    requires
        starts_with_text(s, INVITE_PREFIX@),
        starts_with_text(t, INVITE_PREFIX@),
        upper_text(s.subrange(INVITE_PREFIX@.len() as int, s.len() as int)) == upper_text(
            t.subrange(INVITE_PREFIX@.len() as int, t.len() as int),
        ),
    ensures
        decoded_ticket(s) == decoded_ticket(t),
{
}

/// A base32 text without the prefix is refused for want of it.
pub proof fn law_text_without_prefix(s: Seq<char>)
    requires
        forall|i: int| 0 <= i < s.len() ==> is_base32_char(#[trigger] s[i]),
    ensures
        decoded_ticket(s) == Err::<TicketView, TicketProblem>(TicketProblem::MissingPrefix),
{
    reveal_strlit("dirhive1-");
    if starts_with_text(s, INVITE_PREFIX@) {
        assert(s.subrange(0, INVITE_PREFIX@.len() as int)[0] == s[0]);
        assert(is_base32_char(s[0]));
    }
}

proof fn lemma_base32_is_upper(s: Seq<char>)
    requires
        forall|i: int| 0 <= i < s.len() ==> is_base32_char(#[trigger] s[i]),
    ensures
        upper_text(s) == s,
{
    assert(upper_text(s) =~= s);
}

/// What stands behind the prefix of an invite ticket, in upper case.
pub fn envelope_payload(s: &str) -> (r: Option<String>)
    ensures
        r is Some <==> payload_text(s@) is Some,
        r matches Some(p) ==> payload_text(s@) == Some(p@),
{
    let chars = chars_of(s);
    let prefix = chars_of(INVITE_PREFIX);
    if text_at(chars.as_slice(), 0, prefix.as_slice()) {
        let n: usize = chars.len();
        let rest = string_of(chars.as_slice(), prefix.len(), n);
        let rest_chars = chars_of(rest.as_str());
        Some(to_upper(rest_chars.as_slice()))
    } else {
        None
    }
}

fn text_of_member(m: Option<Option<String>>, name: &str) -> (r: Result<String, TicketError>)
    ensures
        match member_text(member_view(m), name@) {
            Ok(text) => r matches Ok(t) && t@ == text,
            Err(problem) => r matches Err(e) && e@ == problem,
        },
{
    match m {
        Some(Some(text)) => Ok(text),
        Some(None) => Err(
            TicketError::EnvelopeJson(
                "field is no string: `".to_owned().concat(name).concat("`"),
            ),
        ),
        None => Err(
            TicketError::EnvelopeJson("missing field `".to_owned().concat(name).concat("`")),
        ),
    }
}

/// The two texts of an envelope, by what was read of it: `members` is the object with the two
/// members, or why it is none, and `list` the array of two texts.
pub fn read_envelope(
    members: Result<(Option<Option<String>>, Option<Option<String>>), String>,
    list: Option<(String, String)>,
) -> (r: Result<(String, String), TicketError>)
    ensures
        ({
            let seen = match members {
                Ok(m) => Ok((member_view(m.0), member_view(m.1))),
                Err(e) => Err(e@),
            };
            let pair = match list {
                Some(l) => Some((l.0@, l.1@)),
                None => None,
            };
            match envelope_texts(seen, pair) {
                Ok(m) => r matches Ok(t) && t.0@ == m.0 && t.1@ == m.1,
                Err(problem) => r matches Err(e) && e@ == problem,
            }
        }),
{
    match members {
        Ok(m) => {
            let endpoint = match text_of_member(m.0, ENDPOINT_FIELD) {
                Ok(t) => t,
                Err(e) => return Err(e),
            };
            match text_of_member(m.1, SECRET_FIELD) {
                Ok(secret) => Ok((endpoint, secret)),
                Err(e) => Err(e),
            }
        },
        Err(reason) => {
            match list {
                Some(pair) => Ok(pair),
                None => Err(TicketError::EnvelopeJson(reason)),
            }
        },
    }
}

/// The parsed endpoint ticket as a mathematical value.
pub open spec fn endpoint_view(endpoint: Result<EndpointTicket, String>) -> Result<
    (Seq<char>, Seq<u8>),
    Seq<char>,
> {
    match endpoint {
        Ok(t) => Ok((t.spec_text(), t.spec_id())),
        Err(e) => Err(e@),
    }
}

/// Decoded bytes as a mathematical value.
pub open spec fn bytes_view(bytes: Option<Vec<u8>>) -> Option<Seq<u8>> {
    match bytes {
        Some(b) => Some(b@),
        None => None,
    }
}

/// A ticket result as a mathematical value.
pub open spec fn ticket_result(r: Result<InviteTicket, TicketError>) -> Result<
    TicketView,
    TicketProblem,
> {
    match r {
        Ok(t) => Ok(t@),
        Err(e) => Err(e@),
    }
}

impl InviteTicket {
    /// The ticket that invites to a group.
    pub fn new(endpoint: EndpointTicket, folder_secret: [u8; 16]) -> (t: InviteTicket)
        ensures
            t.endpoint == endpoint,
            t.folder_secret == folder_secret,
    {
        InviteTicket { endpoint, folder_secret }
    }

    /// The ticket of a parsed endpoint ticket and a decoded secret.
    pub fn assemble(
        endpoint: Result<EndpointTicket, String>,
        secret: Option<Vec<u8>>,
    ) -> (r: Result<InviteTicket, TicketError>)
        ensures
            ticket_result(r) == assembled(endpoint_view(endpoint), bytes_view(secret)),
    {
        match endpoint {
            Err(e) => Err(TicketError::Endpoint(e)),
            Ok(endpoint) => {
                match secret {
                    None => Err(TicketError::SecretEncoding),
                    Some(bytes) => {
                        if bytes.len() != SECRET_BYTES {
                            Err(TicketError::SecretLength(bytes.len()))
                        } else {
                            let folder_secret = array16(bytes.as_slice());
                            Ok(InviteTicket { endpoint, folder_secret })
                        }
                    },
                }
            },
        }
    }

    /// The text of the ticket. Decoding it gives the ticket back, also with the letters behind the
    /// prefix in another case, where the text of its endpoint ticket is read back as that ticket;
    /// [`EndpointTicket::is_read_back`] tells. Without the prefix it is refused.
    pub fn encode(&self) -> (r: Result<String, TicketError>)
        ensures
            r is Ok,
            r matches Ok(s) ==> s@ == encoded_ticket(self@),
            r matches Ok(s) ==> forall|i: int|
                INVITE_PREFIX@.len() <= i < s@.len() ==> is_base32_char(#[trigger] s@[i]),
            r matches Ok(s) ==> decoded_ticket(
                s@.subrange(INVITE_PREFIX@.len() as int, s@.len() as int),
            ) == Err::<TicketView, TicketProblem>(TicketProblem::MissingPrefix),
            is_ticket_text(self@.endpoint, self@.id) ==> (r matches Ok(s) && decoded_ticket(s@)
                == Ok::<TicketView, TicketProblem>(self@)),
            is_ticket_text(self@.endpoint, self@.id) ==> (r matches Ok(s) && forall|x: Seq<char>|
                upper_text(x) == s@.subrange(INVITE_PREFIX@.len() as int, s@.len() as int)
                    ==> #[trigger] decoded_ticket(INVITE_PREFIX@ + x) == Ok::<
                    TicketView,
                    TicketProblem,
                >(self@)),
    {
        let secret = base32_encode(&self.folder_secret);
        proof {
            reveal_strlit("endpoint_ticket");
            reveal_strlit("folder_secret");
            assert(ENDPOINT_FIELD@[0] != SECRET_FIELD@[0]);
        }
        let endpoint = self.endpoint.text();
        let json = json_write(ENDPOINT_FIELD, endpoint, SECRET_FIELD, secret.as_str());
        let payload = base32_encode(json.as_slice());
        let out = INVITE_PREFIX.to_owned().concat(payload.as_str());
        proof {
            lemma_base32_is_upper(secret@);
            lemma_base32_is_upper(payload@);
            let n = INVITE_PREFIX@.len() as int;
            assert(out@.subrange(0, n) =~= INVITE_PREFIX@);
            assert(out@.subrange(n, out@.len() as int) =~= payload@);
            assert(self.folder_secret@.len() == 16);
            law_text_without_prefix(payload@);
            assert forall|i: int| n <= i < out@.len() implies is_base32_char(
                #[trigger] out@[i],
            ) by {
                assert(out@[i] == payload@[i - n]);
            }
            assert forall|x: Seq<char>| upper_text(x) == payload@ implies #[trigger] decoded_ticket(
                INVITE_PREFIX@ + x,
            ) == decoded_ticket(out@) by {
                let s = INVITE_PREFIX@ + x;
                assert(s.subrange(0, n) =~= INVITE_PREFIX@);
                assert(s.subrange(n, s.len() as int) =~= x);
                law_ticket_case(s, out@);
            }
        }
        Ok(out)
    }

    /// Reads an invite ticket. Of members of the envelope that are given twice the last one counts.
    pub fn decode(s: &str) -> (r: Result<InviteTicket, TicketError>)
        ensures
            ticket_result(r) == decoded_ticket(s@),
    {
        let payload = match envelope_payload(s) {
            Some(p) => p,
            None => return Err(TicketError::MissingPrefix),
        };
        let bytes = match base32_decode(payload.as_str()) {
            Some(b) => b,
            None => return Err(TicketError::EnvelopeEncoding),
        };
        let members = json_read(bytes.as_slice(), ENDPOINT_FIELD, SECRET_FIELD);
        let list = json_read_list(bytes.as_slice());
        match read_envelope(members, list) {
            Err(e) => Err(e),
            Ok((endpoint_text, secret_text)) => {
                let endpoint = EndpointTicket::parse(endpoint_text.as_str());
                let secret_chars = chars_of(secret_text.as_str());
                let secret_upper = to_upper(secret_chars.as_slice());
                let secret = base32_decode(secret_upper.as_str());
                InviteTicket::assemble(endpoint, secret)
            },
        }
    }
}

/// An envelope with two texts, as the members of an object or as a list, is the ticket of the
/// endpoint that the first text stands for and of the sixteen bytes that the second one stands for,
/// in either case of its letters. Where one of them stands for none, the ticket is refused, and the
/// endpoint comes first.
pub proof fn law_envelope_is_opened(bytes: Seq<u8>, endpoint: Seq<char>, secret: Seq<char>)
    requires
        json_members(bytes, "endpoint_ticket"@, "folder_secret"@) == two_texts(endpoint, secret) || (
        json_members(bytes, "endpoint_ticket"@, "folder_secret"@) is Err && json_texts(bytes)
            == Some((endpoint, secret))),
    ensures
        ({
            let key = base32_bytes(upper_text(secret));
            &&& parsed_ticket(endpoint) matches Err(e) ==> opened(bytes) == Err::<
                TicketView,
                TicketProblem,
            >(TicketProblem::Endpoint(e))
            &&& parsed_ticket(endpoint) is Ok && key is None ==> opened(bytes) == Err::<
                TicketView,
                TicketProblem,
            >(TicketProblem::SecretEncoding)
            &&& parsed_ticket(endpoint) is Ok && key is Some && key->0.len() != 16 ==> opened(bytes)
                == Err::<TicketView, TicketProblem>(TicketProblem::SecretLength(key->0.len()))
            &&& parsed_ticket(endpoint) is Ok && key is Some && key->0.len() == 16 ==> (opened(
                bytes,
            ) matches Ok(t) && t.endpoint == parsed_ticket(endpoint)->Ok_0.0 && t.id
                == parsed_ticket(endpoint)->Ok_0.1 && t.folder_secret == key->0)
        }),
{
}

/// An envelope without one of the two members, or with one that is no text, is refused.
pub proof fn law_incomplete_envelope_is_refused(bytes: Seq<u8>)
    requires
        json_members(bytes, "endpoint_ticket"@, "folder_secret"@) matches Ok(m) && !((
        m.0 matches Some(Some(_))) && (m.1 matches Some(Some(_)))),
    ensures
        opened(bytes) matches Err(TicketProblem::EnvelopeJson(_)),
{
}

/// What is decoded is a ticket with a secret of sixteen bytes, and only a text with the prefix is
/// decoded.
pub proof fn law_decoded_ticket(s: Seq<char>)
    requires
        decoded_ticket(s) is Ok,
    ensures
        decoded_ticket(s)->Ok_0.folder_secret.len() == 16,
        starts_with_text(s, "dirhive1-"@),
        base32_bytes(upper_text(s.subrange(9, s.len() as int))) is Some,
{
    reveal_strlit("dirhive1-");
}

/// What the parts and the results of a ticket are as mathematical values: nothing is left out.
pub proof fn law_ticket_values(t: InviteTicket, e: TicketError, b: Vec<u8>, p: EndpointTicket)
    ensures
        ticket_result(Ok(t)) == Ok::<TicketView, TicketProblem>(t@),
        ticket_result(Err(e)) == Err::<TicketView, TicketProblem>(e@),
        t@.endpoint == t.endpoint.spec_text() && t@.id == t.endpoint.spec_id() && t@.folder_secret
            == t.folder_secret@,
        bytes_view(Some(b)) == Some(b@),
        endpoint_view(Ok(p)) == Ok::<(Seq<char>, Seq<u8>), Seq<char>>((p.spec_text(), p.spec_id())),
{
}

} // verus!
