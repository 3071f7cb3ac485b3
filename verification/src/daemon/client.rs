//! Asking the daemon.
use crate::daemon::listener::RpcResponse;
use crate::text::{decimal, decimal_text, head_of, is_head};
use vstd::prelude::*;

verus! {

/// For how many seconds an answer is waited for.
pub const RPC_TIMEOUT: u64 = 5;

/// How many bytes of an answer that could not be read are shown.
pub const SHOWN_BYTES: usize = 200;

/// Why a request has no answer.
#[derive(Debug, Clone, PartialEq, Eq)]
pub enum RpcError {
    /// The daemon did not answer in time.
    Timeout {
        /// What was asked.
        method: String,
    },
    /// The daemon could not be reached.
    Connect {
        /// The socket.
        socket: String,
        /// The reason.
        reason: String,
    },
    /// Writing to or reading from the socket failed, for this reason.
    Io(String),
    /// The daemon closed the connection without an answer.
    Closed,
    /// The answer could not be read.
    Parse {
        /// How the answer begins.
        head: String,
        /// The reason.
        reason: String,
    },
    /// The daemon answered with this error.
    Daemon(String),
    /// The answer holds neither a result nor an error.
    Empty,
}

impl RpcError {
    /// The text of the error.
    pub open spec fn message_text(&self) -> Seq<char> {
        match self {
            RpcError::Timeout { method } => "RPC timeout ("@ + decimal_text(RPC_TIMEOUT as nat)
                + "s) on "@ + method@,
            RpcError::Connect { socket, reason } => "connect to daemon socket "@ + socket@ + ": "@
                + reason@,
            RpcError::Io(e) => e@,
            RpcError::Closed => "daemon closed connection without response"@,
            RpcError::Parse { head, reason } => "parse RpcResponse JSON (first 200 bytes): "@ + head@
                + ": "@ + reason@,
            RpcError::Daemon(e) => "daemon RPC error: "@ + e@,
            RpcError::Empty => "RpcResponse had neither result nor error"@,
        }
    }

    /// The text of the error.
    pub fn message(&self) -> (r: String)
        ensures
            r@ == self.message_text(),
    {
        match self {
            RpcError::Timeout { method } => {
                let secs = decimal(RPC_TIMEOUT);
                "RPC timeout (".to_owned().concat(secs.as_str()).concat("s) on ").concat(
                    method.as_str(),
                )
            },
            RpcError::Connect { socket, reason } => "connect to daemon socket ".to_owned().concat(
                socket.as_str(),
            ).concat(": ").concat(reason.as_str()),
            RpcError::Io(e) => e.clone(),
            RpcError::Closed => "daemon closed connection without response".to_owned(),
            RpcError::Parse { head, reason } => {
                "parse RpcResponse JSON (first 200 bytes): ".to_owned().concat(
                    head.as_str(),
                ).concat(": ").concat(reason.as_str())
            },
            RpcError::Daemon(e) => "daemon RPC error: ".to_owned().concat(e.as_str()),
            RpcError::Empty => "RpcResponse had neither result nor error".to_owned(),
        }
    }
}

/// The result in an answer: an error in it comes first.
pub fn response_result<V>(resp: RpcResponse<V>) -> (r: Result<V, RpcError>)
    ensures
        match resp.error {
            Some(e) => r matches Err(RpcError::Daemon(m)) && m == e,
            None => match resp.result {
                Some(v) => r matches Ok(w) && w == v,
                None => r matches Err(RpcError::Empty),
            },
        },
{
    match resp.error {
        Some(e) => Err(RpcError::Daemon(e)),
        None => {
            match resp.result {
                Some(v) => Ok(v),
                None => Err(RpcError::Empty),
            }
        },
    }
}

/// The result of reading an answer: `n` is the number of bytes read, `line` their text, and
/// `parsed` the answer in it or why there is none.
pub fn read_result<V>(n: usize, line: &str, parsed: Result<RpcResponse<V>, String>) -> (r: Result<
    V,
    RpcError,
>)
    ensures
        if n == 0 {
            r matches Err(RpcError::Closed)
        } else {
            match parsed {
                Err(e) => r matches Err(RpcError::Parse { head, reason }) && reason == e && is_head(
                    head@,
                    line@,
                    SHOWN_BYTES as nat,
                ),
                Ok(resp) => match resp.error {
                    Some(e) => r matches Err(RpcError::Daemon(m)) && m == e,
                    None => match resp.result {
                        Some(v) => r matches Ok(w) && w == v,
                        None => r matches Err(RpcError::Empty),
                    },
                },
            }
        },
{
    if n == 0 {
        return Err(RpcError::Closed);
    }
    match parsed {
        Err(e) => Err(RpcError::Parse { head: head_of(line, SHOWN_BYTES), reason: e }),
        Ok(resp) => response_result(resp),
    }
}

} // verus!
