//! The decisions of an SCPI session, as functions from what an operation returned to
//! what the session does next. The session's retry, read and query loops run on
//! these.
use super::framing::{extract_response, frame_response, FrameOutcome};
use crate::timing::{duration_saturating_mul, scaled_duration};
use std::time::Duration;
use vstd::prelude::*;
use vstd::utf8::encode_utf8;

verus! {

/// What a write attempt did.
#[derive(Debug, Clone, Copy, PartialEq, Eq, Structural)]
pub enum WriteEvent {
    Sent,
    TimedOut,
    Failed,
}

/// What the session does after a write attempt.
#[derive(Debug, Clone, Copy, PartialEq, Eq, Structural)]
pub enum WriteAction {
    /// The command was written.
    Done,
    /// Write again after the backoff, reconnecting first when asked.
    Retry { reconnect: bool },
    /// Give up with a timeout.
    TimeOut,
    /// Give up with the write's own error.
    Fail,
}

/// After write attempt number `attempts` of at most `max_attempts`: a timed-out write
/// is retried while attempts remain (reconnecting first when the options ask for it),
/// else it times out; any other failure ends the write.
pub fn after_write(event: WriteEvent, attempts: u32, max_attempts: u32, reconnect_on_failure: bool) -> (r:
    WriteAction)
    ensures
        r == match event {
            WriteEvent::Sent => WriteAction::Done,
            WriteEvent::TimedOut => if attempts < max_attempts {
                WriteAction::Retry { reconnect: reconnect_on_failure }
            } else {
                WriteAction::TimeOut
            },
            WriteEvent::Failed => WriteAction::Fail,
        },
{
    match event {
        WriteEvent::Sent => WriteAction::Done,
        WriteEvent::TimedOut => if attempts < max_attempts {
            WriteAction::Retry { reconnect: reconnect_on_failure }
        } else {
            WriteAction::TimeOut
        },
        WriteEvent::Failed => WriteAction::Fail,
    }
}

/// What a read returned; the bytes of a positive read are already in the buffer.
#[derive(Debug, Clone, Copy, PartialEq, Eq, Structural)]
pub enum ReadEvent {
    Bytes,
    Nothing,
    TimedOut,
    Failed,
}

/// What the session does after a read.
#[derive(Debug, Clone, PartialEq, Eq)]
pub enum ReadAction {
    /// The buffer frames this response.
    Deliver(Vec<u8>),
    /// Read more.
    KeepReading,
    /// Give up with a timeout, reconnecting first when asked.
    TimeOut { reconnect: bool },
    /// Give up with the read's own error.
    Fail,
}

/// The decision after a read, given the buffered bytes: a framed response is
/// delivered; otherwise more bytes are read after a positive read, a read that returns
/// nothing times out without reconnecting, and a timed-out read times out,
/// reconnecting when the options ask for it.
pub open spec fn read_decision(
    r: ReadAction,
    buffer: Seq<u8>,
    terminator: Seq<char>,
    event: ReadEvent,
    reconnect_on_failure: bool,
) -> bool {
    match event {
        ReadEvent::Failed => r is Fail,
        _ => match frame_response(buffer, encode_utf8(terminator)) {
            FrameOutcome::Framed { payload, consumed: _ } => r matches ReadAction::Deliver(p)
                && p@ == payload,
            _ => match event {
                ReadEvent::Bytes => r is KeepReading,
                ReadEvent::Nothing => r == ReadAction::TimeOut { reconnect: false },
                _ => r == ReadAction::TimeOut { reconnect: reconnect_on_failure },
            },
        },
    }
}

/// Decides what follows a read.
pub fn after_read(buffer: &[u8], terminator: &str, event: ReadEvent, reconnect_on_failure: bool) -> (r:
    ReadAction)
    ensures
        read_decision(r, buffer@, terminator@, event, reconnect_on_failure),
{
    if event == ReadEvent::Failed {
        return ReadAction::Fail;
    }
    match extract_response(buffer, terminator) {
        Ok((payload, _)) => ReadAction::Deliver(payload),
        Err(_) => match event {
            ReadEvent::Bytes => ReadAction::KeepReading,
            ReadEvent::Nothing => ReadAction::TimeOut { reconnect: false },
            _ => ReadAction::TimeOut { reconnect: reconnect_on_failure },
        },
    }
}

/// How a query's read ended.
#[derive(Debug, Clone, Copy, PartialEq, Eq, Structural)]
pub enum ReplyEvent {
    Framed,
    TimedOut,
    Failed,
}

/// What a query does after its read.
#[derive(Debug, Clone, Copy, PartialEq, Eq, Structural)]
pub enum QueryAction {
    /// Return the reply.
    Deliver,
    /// Flush stale bytes, wait, and send the query again.
    FlushAndRetry,
    /// Flush stale bytes and give up with a timeout.
    FlushAndTimeOut,
    /// Give up with the read's own error.
    Fail,
}

/// After attempt number `attempts` of at most `max_attempts`: a timed-out read is
/// flushed and the query sent again while attempts remain, else flushed and timed out;
/// any other failure ends the query.
pub fn after_reply(event: ReplyEvent, attempts: u32, max_attempts: u32) -> (r: QueryAction)
    ensures
        r == match event {
            ReplyEvent::Framed => QueryAction::Deliver,
            ReplyEvent::TimedOut => if attempts < max_attempts {
                QueryAction::FlushAndRetry
            } else {
                QueryAction::FlushAndTimeOut
            },
            ReplyEvent::Failed => QueryAction::Fail,
        },
{
    match event {
        ReplyEvent::Framed => QueryAction::Deliver,
        ReplyEvent::TimedOut => if attempts < max_attempts {
            QueryAction::FlushAndRetry
        } else {
            QueryAction::FlushAndTimeOut
        },
        ReplyEvent::Failed => QueryAction::Fail,
    }
}

/// The wait before sending a query again after attempt number `attempts`: the
/// backoff taken that many times.
pub fn query_backoff(backoff: Duration, attempts: u32) -> (r: Duration)
    ensures
        r == scaled_duration(backoff, attempts),
{
    duration_saturating_mul(backoff, attempts)
}

} // verus!
