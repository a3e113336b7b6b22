use crate::kind::{kind_label, InstrumentKind};
use crate::text::{debug_text, decimal_string, decimal_text, spec_debug_text};
use vstd::prelude::*;

verus! {

/// Result type of the library's fallible operations.
pub type Result<T> = std::result::Result<T, Error>;

/// Core error type; backend errors are carried by their message.
#[derive(Debug)]
#[non_exhaustive]
pub enum Error {
    Transport(TransportError),
    Backend(String),
    ScpiCommand { command: String, message: String },
    Timeout,
    Unsupported(&'static str),
    DeviceNotFound { address: String },
    UnsupportedKind { address: String, kind: InstrumentKind, supported: Vec<InstrumentKind> },
    Parse(String),
    SessionLimit { address: String },
    InvalidAddress(String),
    MockExhausted,
    MockMismatch { expected: String, actual: String },
    Comm { address: String, command: Option<String>, attempts: u32, source: Box<Error> },
}

/// Transport-level failure.
#[derive(Debug)]
#[non_exhaustive]
pub enum TransportError {
    Io(String),
    Closed,
}

/// The text of an optional `&str`.
pub open spec fn opt_view(o: Option<&str>) -> Option<Seq<char>> {
    match o {
        Some(s) => Some(s@),
        None => None,
    }
}

/// `r` is `inner` in the context of a device address, command and attempt count: a
/// communication error wrapping `inner` with that context, or `inner` itself when it
/// already is a communication error.
pub open spec fn in_comm_context(
    r: Error,
    inner: Error,
    address: Seq<char>,
    command: Option<Seq<char>>,
    attempts: u32,
) -> bool {
    if inner is Comm {
        r == inner
    } else {
        r matches Error::Comm { address: a, command: c, attempts: n, source } && a@ == address && n
            == attempts && *source == inner && match command {
            Some(cmd) => c matches Some(cs) && cs@ == cmd,
            None => c is None,
        }
    }
}

impl Error {
    /// Wraps the message of a backend-specific error into the core error type.
    pub fn backend(message: String) -> (r: Self)
        ensures
            r matches Error::Backend(m) && m@ == message@,
    {
        Error::Backend(message)
    }

    /// Attaches device address and command context to a communication error;
    /// an error that already carries that context is returned unchanged.
    pub fn with_comm_context(self, address: String, command: Option<&str>, attempts: u32) -> (r: Self)
        ensures
            in_comm_context(r, self, address@, opt_view(command), attempts),
    {
        match self {
            Error::Comm { .. } => self,
            other => {
                let command = match command {
                    Some(c) => Some(c.to_owned()),
                    None => None,
                };
                Error::Comm { address, command, attempts, source: Box::new(other) }
            },
        }
    }
}

/// `Debug` of a list of kinds: their names between brackets, separated by `, `.
pub open spec fn kinds_text(kinds: Seq<InstrumentKind>) -> Seq<char> {
    "["@ + kinds_joined(kinds) + "]"@
}

pub open spec fn kinds_joined(kinds: Seq<InstrumentKind>) -> Seq<char>
    decreases kinds.len(),
{
    if kinds.len() == 0 {
        Seq::empty()
    } else if kinds.len() == 1 {
        kind_label(kinds[0])
    } else {
        kinds_joined(kinds.drop_last()) + ", "@ + kind_label(kinds.last())
    }
}

/// The message of a transport failure.
pub open spec fn transport_error_text(e: TransportError) -> Seq<char> {
    match e {
        TransportError::Io(m) => "I/O error: "@ + m@,
        TransportError::Closed => "connection closed"@,
    }
}

/// The message of an error, as the library reports it.
pub open spec fn error_text(e: Error) -> Seq<char>
    decreases e,
{
    match e {
        Error::Transport(t) => "transport: "@ + transport_error_text(t),
        Error::Backend(m) => "backend: "@ + m@,
        Error::ScpiCommand { command, message } => "SCPI command '"@ + command@ + "' failed: "@
            + message@,
        Error::Timeout => "operation timed out"@,
        Error::Unsupported(what) => "unsupported: "@ + what@,
        Error::DeviceNotFound { address } => "device not found: "@ + address@,
        Error::UnsupportedKind { address, kind, supported } => "kind "@ + kind_label(kind)
            + " not supported at "@ + address@ + "; supported: "@ + kinds_text(supported@),
        Error::Parse(m) => "parse error: "@ + m@,
        Error::SessionLimit { address } => "session limit reached for "@ + address@,
        Error::InvalidAddress(m) => "invalid address: "@ + m@,
        Error::MockExhausted => "mock script exhausted: expected write"@,
        Error::MockMismatch { expected, actual } => "mock script mismatch: expected "@
            + spec_debug_text(expected@) + ", got "@ + spec_debug_text(actual@),
        Error::Comm { address, command, attempts, source } => "communication failed at "@
            + address@ + " after "@ + decimal_text(attempts as nat) + " attempt(s): "@
            + error_text(*source),
    }
}

fn kinds_string(kinds: &Vec<InstrumentKind>) -> (r: String)
    ensures
        r@ == kinds_text(kinds@),
{
    let mut out = String::new();
    out.append("[");
    let mut i: usize = 0;
    while i < kinds.len()
        invariant
            i <= kinds@.len(),
            out@ == "["@ + kinds_joined(kinds@.take(i as int)),
        decreases kinds@.len() - i,
    {
        let ghost before = out@;
        if i > 0 {
            out.append(", ");
        }
        out.append(kinds[i].as_str());
        proof {
            let t = kinds@.take(i + 1);
            assert(t.drop_last() =~= kinds@.take(i as int));
            if i == 0 {
                assert(kinds_joined(t) == kind_label(kinds@[0]));
            }
        }
        i = i + 1;
    }
    assert(kinds@.take(kinds@.len() as int) =~= kinds@);
    out.append("]");
    out
}

impl TransportError {
    /// The message of this failure.
    pub fn to_string(&self) -> (r: String)
        ensures
            r@ == transport_error_text(*self),
    {
        match self {
            TransportError::Io(m) => {
                let mut out = String::new();
                out.append("I/O error: ");
                out.append(m.as_str());
                out
            },
            TransportError::Closed => "connection closed".to_owned(),
        }
    }
}

impl Error {
    /// The message of this error; a communication error ends with the message of the
    /// error it wraps.
    pub fn to_string(&self) -> (r: String)
        ensures
            r@ == error_text(*self),
        decreases self,
    {
        let mut out = String::new();
        match self {
            Error::Transport(t) => {
                out.append("transport: ");
                let m = t.to_string();
                out.append(m.as_str());
            },
            Error::Backend(m) => {
                out.append("backend: ");
                out.append(m.as_str());
            },
            Error::ScpiCommand { command, message } => {
                out.append("SCPI command '");
                out.append(command.as_str());
                out.append("' failed: ");
                out.append(message.as_str());
            },
            Error::Timeout => {
                out.append("operation timed out");
            },
            Error::Unsupported(what) => {
                out.append("unsupported: ");
                out.append(what);
            },
            Error::DeviceNotFound { address } => {
                out.append("device not found: ");
                out.append(address.as_str());
            },
            Error::UnsupportedKind { address, kind, supported } => {
                out.append("kind ");
                out.append(kind.as_str());
                out.append(" not supported at ");
                out.append(address.as_str());
                out.append("; supported: ");
                let list = kinds_string(supported);
                out.append(list.as_str());
            },
            Error::Parse(m) => {
                out.append("parse error: ");
                out.append(m.as_str());
            },
            Error::SessionLimit { address } => {
                out.append("session limit reached for ");
                out.append(address.as_str());
            },
            Error::InvalidAddress(m) => {
                out.append("invalid address: ");
                out.append(m.as_str());
            },
            Error::MockExhausted => {
                out.append("mock script exhausted: expected write");
            },
            Error::MockMismatch { expected, actual } => {
                out.append("mock script mismatch: expected ");
                let e = debug_text(expected.as_str());
                out.append(e.as_str());
                out.append(", got ");
                let a = debug_text(actual.as_str());
                out.append(a.as_str());
            },
            Error::Comm { address, command: _, attempts, source } => {
                out.append("communication failed at ");
                out.append(address.as_str());
                out.append(" after ");
                let n = decimal_string(*attempts as u64);
                out.append(n.as_str());
                out.append(" attempt(s): ");
                let inner = source.to_string();
                out.append(inner.as_str());
            },
        }
        out
    }
}

} // verus!
