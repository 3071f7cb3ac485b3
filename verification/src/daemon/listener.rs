//! The socket of the daemon: who may start it, how many may ask at once, and what is answered to
//! a line that holds no request.
use crate::text::{chars_of, decimal, decimal_text, string_of};
use vstd::prelude::*;
use vstd::utf8::encode_utf8;

verus! {

/// The largest request, in bytes.
pub const MAX_REQUEST_BYTES: usize = 1048576;

/// For how many seconds another daemon is given to answer.
pub const PROBE_TIMEOUT: u64 = 1;

/// For how many seconds a request is waited for.
pub const CONNECTION_READ_TIMEOUT: u64 = 10;

/// How many may ask at once.
pub const MAX_IN_FLIGHT_CONNECTIONS: usize = 32;

/// A request: what is asked, and the particulars.
#[derive(Debug, Clone, PartialEq, Eq)]
pub struct RpcRequest<P> {
    /// What is asked.
    pub method: String,
    /// The particulars.
    pub params: P,
}

/// An answer: a result or an error.
#[derive(Debug, Clone, PartialEq, Eq)]
pub struct RpcResponse<V> {
    /// The result.
    pub result: Option<V>,
    /// The error.
    pub error: Option<String>,
}

impl<V> RpcResponse<V> {
    /// The answer holds either a result or an error, not both.
    pub open spec fn one_sided(self) -> bool {
        self.result is Some <==> self.error is None
    }

    /// The answer with a result.
    pub fn ok(result: V) -> (r: RpcResponse<V>)
        ensures
            r.result == Some(result),
            r.error is None,
            r.one_sided(),
    {
        RpcResponse { result: Some(result), error: None }
    }

    /// The answer with an error.
    pub fn err(msg: String) -> (r: RpcResponse<V>)
        ensures
            r.result is None,
            r.error == Some(msg),
            r.one_sided(),
    {
        RpcResponse { result: None, error: Some(msg) }
    }

    /// The answer to a request that was carried out with this outcome.
    pub fn from_outcome(outcome: Result<V, String>) -> (r: RpcResponse<V>)
        ensures
            r.one_sided(),
            match outcome {
                Ok(v) => r.result == Some(v),
                Err(e) => r.error == Some(e),
            },
    {
        match outcome {
            Ok(v) => RpcResponse::ok(v),
            Err(e) => RpcResponse::err(e),
        }
    }
}

/// What came of waiting for a line.
#[derive(Debug, Clone, PartialEq, Eq)]
pub enum LineRead {
    /// It did not come in time.
    TimedOut,
    /// Reading failed, for this reason.
    Failed(String),
    /// This was read, at most [`MAX_REQUEST_BYTES`] and one more; the number of bytes is 0 where
    /// the other side closed the connection.
    Line {
        /// The number of bytes read.
        n: usize,
        /// What was read.
        text: String,
    },
}

/// What is done with what was read.
#[derive(Debug, Clone, PartialEq, Eq)]
pub enum RequestStep {
    /// The connection is closed without an answer.
    Close,
    /// Reading failed, and so does the connection.
    Fail(String),
    /// This error is answered.
    Refuse(String),
    /// This text is to be read as a request.
    Parse(String),
}

/// The text without the line feeds at its end.
pub open spec fn without_line_feeds(s: Seq<char>) -> Seq<char>
    decreases s.len(),
{
    if s.len() > 0 && s.last() == '\n' {
        without_line_feeds(s.drop_last())
    } else {
        s
    }
}

/// The text of the error for a request that did not come in time.
pub open spec fn timeout_text() -> Seq<char> {
    "request read timed out after "@ + decimal_text(CONNECTION_READ_TIMEOUT as nat) + "s"@
}

fn trim_line_feeds(s: &str) -> (r: String)
    ensures
        r@ == without_line_feeds(s@),
{
    let chars = chars_of(s);
    let mut n: usize = chars.len();
    proof {
        assert(chars@.take(n as int) =~= s@);
    }
    while n > 0 && chars[n - 1] == '\n'
        invariant
            n <= chars@.len(),
            without_line_feeds(s@) == without_line_feeds(chars@.take(n as int)),
        decreases n,
    {
        proof {
            assert(chars@.take(n as int).drop_last() =~= chars@.take(n - 1));
        }
        n -= 1;
    }
    let r = string_of(chars.as_slice(), 0, n);
    proof {
        assert(r@ =~= chars@.take(n as int));
    }
    r
}

/// Decides what is done with what was read from a connection.
pub fn handle_line(read: LineRead) -> (step: RequestStep)
    ensures
        match read {
            LineRead::TimedOut => step matches RequestStep::Refuse(e) && e@ == timeout_text(),
            LineRead::Failed(why) => step matches RequestStep::Fail(e) && e@ == "read RPC line: "@
                + why@,
            LineRead::Line { n, text } => if n == 0 {
                step is Close
            } else if encode_utf8(text@).len() > MAX_REQUEST_BYTES {
                step matches RequestStep::Refuse(e) && e@ == "request too large"@
            } else {
                step matches RequestStep::Parse(t) && t@ == without_line_feeds(text@)
            },
        },
{
    match read {
        LineRead::TimedOut => {
            let secs = decimal(CONNECTION_READ_TIMEOUT);
            RequestStep::Refuse(
                "request read timed out after ".to_owned().concat(secs.as_str()).concat("s"),
            )
        },
        LineRead::Failed(why) => RequestStep::Fail(
            "read RPC line: ".to_owned().concat(why.as_str()),
        ),
        LineRead::Line { n, text } => {
            if n == 0 {
                RequestStep::Close
            } else if text.as_str().as_bytes().len() > MAX_REQUEST_BYTES {
                RequestStep::Refuse("request too large".to_owned())
            } else {
                RequestStep::Parse(trim_line_feeds(text.as_str()))
            }
        },
    }
}

/// The error that is answered to a text that is no request, for the reason given.
pub fn invalid_request(reason: &str) -> (r: String)
    ensures
        r@ == "invalid JSON request: "@ + reason@,
{
    "invalid JSON request: ".to_owned().concat(reason)
}

/// How many are asking at the moment: never more than [`MAX_IN_FLIGHT_CONNECTIONS`].
#[derive(Debug)]
pub struct ConnectionSlots {
    used: usize,
}

impl ConnectionSlots {
    #[verifier::type_invariant]
    spec fn inv(self) -> bool {
        self.used <= MAX_IN_FLIGHT_CONNECTIONS
    }

    /// How many are asking.
    pub closed spec fn in_use(&self) -> nat {
        self.used as nat
    }

    /// Nobody is asking.
    pub fn new() -> (s: ConnectionSlots)
        ensures
            s.in_use() == 0,
    {
        ConnectionSlots { used: 0 }
    }

    /// Lets one more ask, if there is room, and returns whether there was.
    pub fn try_acquire(&mut self) -> (ok: bool)
        ensures
            ok == (old(self).in_use() < MAX_IN_FLIGHT_CONNECTIONS),
            final(self).in_use() == if ok {
                old(self).in_use() + 1
            } else {
                old(self).in_use()
            },
            final(self).in_use() <= MAX_IN_FLIGHT_CONNECTIONS,
    {
        proof {
            use_type_invariant(&*self);
        }
        if self.used < MAX_IN_FLIGHT_CONNECTIONS {
            self.used = self.used + 1;
            true
        } else {
            false
        }
    }

    /// One that was asking is done.
    pub fn release(&mut self)
        ensures
            final(self).in_use() == if old(self).in_use() > 0 {
                (old(self).in_use() - 1) as nat
            } else {
                0
            },
            final(self).in_use() <= MAX_IN_FLIGHT_CONNECTIONS,
    {
        proof {
            use_type_invariant(&*self);
        }
        if self.used > 0 {
            self.used = self.used - 1;
        }
    }
}

/// What is done about a connection.
#[derive(Debug, Clone, Copy, PartialEq, Eq, Structural)]
pub enum AcceptStep {
    /// No more connections are taken.
    Stop,
    /// It is served.
    Serve,
    /// It is closed at once, without an answer: too many are asking.
    Drop,
    /// There is none: taking it failed, and the next one is waited for.
    Retry,
}

/// Decides what is done about a connection: `stopping` is whether the daemon is to stop,
/// `accepted` whether a connection was taken.
pub fn accept_step(slots: &mut ConnectionSlots, stopping: bool, accepted: bool) -> (step:
    AcceptStep)
    ensures
        step == if stopping {
            AcceptStep::Stop
        } else if !accepted {
            AcceptStep::Retry
        } else if old(slots).in_use() < MAX_IN_FLIGHT_CONNECTIONS {
            AcceptStep::Serve
        } else {
            AcceptStep::Drop
        },
        final(slots).in_use() == if step == AcceptStep::Serve {
            old(slots).in_use() + 1
        } else {
            old(slots).in_use()
        },
{
    if stopping {
        AcceptStep::Stop
    } else if !accepted {
        AcceptStep::Retry
    } else if slots.try_acquire() {
        AcceptStep::Serve
    } else {
        AcceptStep::Drop
    }
}

/// What a daemon that starts does about the socket.
#[derive(Debug, Clone, Copy, PartialEq, Eq, Structural)]
pub enum BindStep {
    /// It does not start: another one holds the lock.
    Locked,
    /// It does not start: another one answers on the socket.
    AlreadyRunning,
    /// It removes the socket that was left over, and makes its own.
    ReplaceStale,
    /// It makes its socket.
    Bind,
}

/// Decides what a daemon that starts does about the socket: `answered` is whether another daemon
/// answered on it.
pub fn plan_bind(lock_acquired: bool, socket_present: bool, answered: bool) -> (step: BindStep)
    ensures
        step == if !lock_acquired {
            BindStep::Locked
        } else if !socket_present {
            BindStep::Bind
        } else if answered {
            BindStep::AlreadyRunning
        } else {
            BindStep::ReplaceStale
        },
{
    if !lock_acquired {
        BindStep::Locked
    } else if !socket_present {
        BindStep::Bind
    } else if answered {
        BindStep::AlreadyRunning
    } else {
        BindStep::ReplaceStale
    }
}

/// Whether another daemon answered: it was reached in time, and a line came back.
pub fn probe_answered(in_time: bool, bytes_read: Option<usize>) -> (r: bool)
    ensures
        r == (in_time && bytes_read is Some && bytes_read->0 > 0),
{
    match bytes_read {
        Some(n) => in_time && n > 0,
        None => false,
    }
}

/// A request is the text that was sent, without the line feeds at its end and otherwise as it is.
pub proof fn law_request_is_the_line(s: Seq<char>)
    ensures
        ({
            let t = without_line_feeds(s);
            &&& t.len() <= s.len()
            &&& t == s.subrange(0, t.len() as int)
            &&& forall|i: int| t.len() <= i < s.len() ==> #[trigger] s[i] == '\n'
            &&& t.len() > 0 ==> t.last() != '\n'
        }),
    decreases s.len(),
{
    if s.len() > 0 && s.last() == '\n' {
        law_request_is_the_line(s.drop_last());
        let t = without_line_feeds(s);
        assert(t == s.drop_last().subrange(0, t.len() as int));
        assert(t =~= s.subrange(0, t.len() as int));
        assert forall|i: int| t.len() <= i < s.len() implies #[trigger] s[i] == '\n' by {
            if i < s.len() - 1 {
                assert(s.drop_last()[i] == s[i]);
            }
        }
    } else {
        assert(s =~= s.subrange(0, s.len() as int));
    }
}

} // verus!
