//! Serving contents: only to allowed peers.
use crate::allowlist::AllowList;
use crate::peer_id::PeerId;
use vstd::prelude::*;

verus! {

/// The code with which a connection is closed on a peer that is not allowed.
pub const REJECT_CODE_UNAUTHORIZED: u32 = 401;

/// The text that goes with [`REJECT_CODE_UNAUTHORIZED`].
pub const REJECT_REASON: &'static str = "unauthorized";

/// What is done with a connection that asks for contents.
#[derive(Debug, Clone, Copy, PartialEq, Eq)]
pub enum ServeDecision {
    /// It is served.
    Serve,
    /// It is closed.
    Close {
        /// With this code.
        code: u32,
        /// And this text.
        reason: &'static str,
    },
}

/// Whether a peer may ask for contents.
pub fn is_authorized(allowlist: &AllowList, remote: &PeerId) -> (r: bool)
    ensures
        r == allowlist@.allows(remote@),
{
    allowlist.contains(remote)
}

/// Decides what is done with a connection that asks for contents.
pub fn decide_connection(allowlist: &AllowList, remote: &PeerId) -> (d: ServeDecision)
    ensures
        if allowlist@.allows(remote@) {
            d is Serve
        } else {
            d matches ServeDecision::Close { code, reason } && code == REJECT_CODE_UNAUTHORIZED
                && reason@ == REJECT_REASON@
        },
{
    if is_authorized(allowlist, remote) {
        ServeDecision::Serve
    } else {
        ServeDecision::Close { code: REJECT_CODE_UNAUTHORIZED, reason: REJECT_REASON }
    }
}

} // verus!
