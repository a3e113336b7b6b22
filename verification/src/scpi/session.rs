//! SCPI sessions: commands and queries over a transport, with retries, reconnects
//! and response framing.
//!
//! A session keeps a ghost log of everything it asked of its transport and what came
//! back. The transport is any implementation, so nothing is known of its answers; the
//! contracts state how the session behaves whatever they are, over that log.
use super::decision::{
    after_read, after_reply, after_write, query_backoff, QueryAction, ReadAction, ReadEvent,
    ReplyEvent, WriteAction, WriteEvent,
};
use super::framing::{extract_response, frame_response, FrameOutcome};
use super::protocol::{
    is_opc_supported_reply, is_syst_err_supported_reply, max_write_attempts, normalize_command,
    normalized_command, opc_supported_reply, syst_err_supported_reply, write_attempts,
    SessionCapabilities,
};
use crate::connect::{effective_read_timeout, io_timeout, ConnectOptions};
use crate::diagnostics::{CommsEventKind, Diagnostics, DiagnosticsView};
use crate::error::{Error, Result};
use crate::text::{chars_of, chars_start_with, spec_utf8_lossy, starts_with, trim, trim_str, utf8_lossy};
use crate::timing::{
    millis_duration, secs_duration, duration_from_millis, duration_from_secs, duration_saturating_mul, elapsed_since, instant_now,
};
use crate::transport::{clone_text, DynTransport, Transport};
use std::time::{Duration, Instant};
use vstd::prelude::*;
use vstd::utf8::encode_utf8;

verus! {

/// What a write did, as the session saw it.
pub enum WriteOutcome {
    Sent,
    TimedOut,
    Failed,
}

/// What a read returned, as the session saw it.
pub enum ReadOutcome {
    Bytes(Seq<u8>),
    Empty,
    TimedOut,
    Failed,
}

/// One request a session made of its transport, with its outcome.
pub enum LinkEvent {
    Configure { ok: bool },
    SetTimeout { timeout: Duration, ok: bool },
    Write { data: Seq<u8>, outcome: WriteOutcome },
    Read { outcome: ReadOutcome },
    Reconnect { ok: bool },
    Pause { delay: Duration },
}

/// What a session is: its options, what it learned of the instrument, and the log of
/// its transport requests.
pub struct SessionView {
    pub opts: ConnectOptions,
    pub capabilities: SessionCapabilities,
    pub log: Seq<LinkEvent>,
}

pub open spec fn write_outcome(r: Result<()>) -> WriteOutcome {
    match r {
        Ok(_) => WriteOutcome::Sent,
        Err(Error::Timeout) => WriteOutcome::TimedOut,
        Err(_) => WriteOutcome::Failed,
    }
}

/// How a read result is logged: the bytes that a positive count covers.
pub open spec fn read_outcome(r: Result<usize>, buf: Seq<u8>) -> ReadOutcome {
    match r {
        Ok(n) => if n == 0 {
            ReadOutcome::Empty
        } else {
            ReadOutcome::Bytes(buf.take(n as int))
        },
        Err(Error::Timeout) => ReadOutcome::TimedOut,
        Err(_) => ReadOutcome::Failed,
    }
}

/// The bytes sent for `command`: its UTF-8 encoding with the terminator appended when
/// missing.
pub open spec fn command_bytes(command: Seq<char>, terminator: Seq<char>) -> Seq<u8> {
    encode_utf8(normalized_command(command, terminator))
}

/// The bytes that the reads of `events` returned, in order.
pub open spec fn received(events: Seq<LinkEvent>) -> Seq<u8>
    decreases events.len(),
{
    if events.len() == 0 {
        Seq::empty()
    } else {
        let rest = received(events.drop_last());
        match events.last() {
            LinkEvent::Read { outcome: ReadOutcome::Bytes(b) } => rest + b,
            _ => rest,
        }
    }
}

/// The events after the last write (all of them when there is none).
pub open spec fn since_last_write(events: Seq<LinkEvent>) -> Seq<LinkEvent>
    decreases events.len(),
{
    if events.len() == 0 {
        events
    } else if events.last() is Write {
        Seq::empty()
    } else {
        since_last_write(events.drop_last()).push(events.last())
    }
}

/// The reply that the reads after the last write frame, trimmed, if they frame one.
pub open spec fn reply_of(events: Seq<LinkEvent>, terminator: Seq<char>) -> Option<Seq<char>> {
    match frame_response(received(since_last_write(events)), encode_utf8(terminator)) {
        FrameOutcome::Framed { payload, consumed: _ } => Some(trim(spec_utf8_lossy(payload))),
        _ => None,
    }
}

/// The last read timeout that `events` set, and whether setting it succeeded.
pub open spec fn last_timeout_setting(events: Seq<LinkEvent>) -> Option<(Duration, bool)>
    decreases events.len(),
{
    if events.len() == 0 {
        None
    } else {
        match events.last() {
            LinkEvent::SetTimeout { timeout, ok } => Some((timeout, ok)),
            _ => last_timeout_setting(events.drop_last()),
        }
    }
}

/// The last read timeout that `events` set is `io`, unless setting it failed.
pub open spec fn leaves_timeout(events: Seq<LinkEvent>, io: Duration) -> bool {
    match last_timeout_setting(events) {
        Some((t, ok)) => t == io || !ok,
        None => true,
    }
}

pub open spec fn timed_out(e: LinkEvent) -> bool {
    ||| e matches LinkEvent::Read { outcome: ReadOutcome::TimedOut }
    ||| e matches LinkEvent::Write { outcome: WriteOutcome::TimedOut, .. }
}

/// Every reconnect directly follows a read or write that timed out.
pub open spec fn reconnects_follow_timeouts(events: Seq<LinkEvent>) -> bool {
    forall|i: int|
        0 <= i < events.len() && #[trigger] events[i] is Reconnect ==> i > 0 && timed_out(
            events[i - 1],
        )
}

/// Every write in `events` sent `data`.
pub open spec fn writes_only(events: Seq<LinkEvent>, data: Seq<u8>) -> bool {
    forall|i: int|
        0 <= i < events.len() && #[trigger] events[i] is Write ==> events[i]->Write_data == data
}

/// The number of writes in `events`.
pub open spec fn write_count(events: Seq<LinkEvent>) -> nat
    decreases events.len(),
{
    if events.len() == 0 {
        0
    } else {
        write_count(events.drop_last()) + if events.last() is Write {
            1nat
        } else {
            0nat
        }
    }
}

/// The number of reconnects in `events`.
pub open spec fn reconnect_count(events: Seq<LinkEvent>) -> nat
    decreases events.len(),
{
    if events.len() == 0 {
        0
    } else {
        reconnect_count(events.drop_last()) + if events.last() is Reconnect {
            1nat
        } else {
            0nat
        }
    }
}

/// Every write in `events` timed out.
pub open spec fn writes_timed_out(events: Seq<LinkEvent>) -> bool {
    forall|i: int|
        0 <= i < events.len() && #[trigger] events[i] is Write ==> events[i]->Write_outcome
            is TimedOut
}

/// Every pause in `events` waited `delay`.
pub open spec fn pauses_of(events: Seq<LinkEvent>, delay: Duration) -> bool {
    forall|i: int| 0 <= i < events.len() && #[trigger] events[i] is Pause ==> events[i]->Pause_delay == delay
}

/// No read in `events`.
pub open spec fn no_reads(events: Seq<LinkEvent>) -> bool {
    forall|i: int| 0 <= i < events.len() ==> !(#[trigger] events[i] is Read)
}

/// The shape of a write with retries: it ends with a write, every earlier write timed
/// out, each retry reconnected exactly when `reconnect` says, and every wait between
/// attempts was `backoff`.
pub open spec fn retry_shape(events: Seq<LinkEvent>, reconnect: bool, backoff: Duration) -> bool {
    &&& events.len() > 0
    &&& events.last() is Write
    &&& writes_timed_out(events.drop_last())
    &&& reconnect_count(events) == if reconnect {
        (write_count(events) - 1) as nat
    } else {
        0nat
    }
    &&& pauses_of(events, backoff)
}

/// Every event of `events` is a read.
pub open spec fn only_reads(events: Seq<LinkEvent>) -> bool {
    forall|i: int| 0 <= i < events.len() ==> #[trigger] events[i] is Read
}

/// One response read under `timeout`: the read timeout set successfully, then reads
/// only, then a timeout setting, where the bytes read frame a response.
pub open spec fn read_window(events: Seq<LinkEvent>, timeout: Duration, terminator: Seq<char>) -> bool {
    &&& events.len() >= 2
    &&& events[0] == (LinkEvent::SetTimeout { timeout, ok: true })
    &&& events.last() is SetTimeout
    &&& only_reads(events.subrange(1, events.len() - 1))
    &&& frame_response(received(events), encode_utf8(terminator)) is Framed
}

/// The query that `events` end with was answered: after its last write, a response
/// was read under `timeout`.
pub open spec fn delivered(events: Seq<LinkEvent>, timeout: Duration, terminator: Seq<char>) -> bool {
    write_count(events) > 0 && read_window(since_last_write(events), timeout, terminator)
}

/// A flush: the read timeout set to 50 ms, ending the flush with its error when
/// that fails; otherwise reads until the transport has nothing more, then the I/O
/// timeout `io` set back, the flush failing exactly when its last read failed.
pub open spec fn flush_run(events: Seq<LinkEvent>, io: Duration, r: Result<()>) -> bool {
    &&& events.len() >= 1
    &&& events[0] matches LinkEvent::SetTimeout { timeout, ok: _ } && timeout == millis_duration(50)
    &&& !events[0]->SetTimeout_ok ==> events.len() == 1 && r is Err
    &&& events[0]->SetTimeout_ok ==> {
        &&& events.len() >= 3
        &&& events.last() matches LinkEvent::SetTimeout { timeout, ok: _ } && timeout == io
        &&& only_reads(events.subrange(1, events.len() - 1))
        &&& (r is Err <==> events[events.len() - 2] matches LinkEvent::Read { outcome: ReadOutcome::Failed })
    }
}

/// Some request in `events` failed other than by timing out: a write or read that
/// failed, or a read timeout that could not be set.
pub open spec fn failed_hard(events: Seq<LinkEvent>) -> bool {
    exists|i: int|
        0 <= i < events.len() && {
            ||| #[trigger] events[i] matches LinkEvent::Write { outcome: WriteOutcome::Failed, .. }
            ||| events[i] matches LinkEvent::Read { outcome: ReadOutcome::Failed }
            ||| events[i] matches LinkEvent::SetTimeout { ok: false, .. }
        }
}

/// No reconnect in `events`.
pub open spec fn no_reconnects(events: Seq<LinkEvent>) -> bool {
    forall|i: int| 0 <= i < events.len() ==> !(#[trigger] events[i] is Reconnect)
}

proof fn lemma_no_reconnects_concat(a: Seq<LinkEvent>, b: Seq<LinkEvent>)
    requires
        no_reconnects(a),
        no_reconnects(b),
    ensures
        no_reconnects(a + b),
{
    assert forall|i: int| 0 <= i < (a + b).len() implies !(#[trigger] (a + b)[i] is Reconnect) by {
        if i < a.len() {
            assert((a + b)[i] == a[i]);
        } else {
            assert((a + b)[i] == b[i - a.len()]);
        }
    }
}

proof fn lemma_failed_hard_within(a: Seq<LinkEvent>, b: Seq<LinkEvent>, c: Seq<LinkEvent>)
    requires
        failed_hard(b),
    ensures
        failed_hard(a + b + c),
{
    let i = choose|i: int|
        0 <= i < b.len() && {
            ||| #[trigger] b[i] matches LinkEvent::Write { outcome: WriteOutcome::Failed, .. }
            ||| b[i] matches LinkEvent::Read { outcome: ReadOutcome::Failed }
            ||| b[i] matches LinkEvent::SetTimeout { ok: false, .. }
        };
    assert((a + b + c)[a.len() + i] == b[i]);
}

/// A session just opened with `opts`: the transport configured first, then, when
/// the options ask for it, the status cleared and the instrument reset; the I/O
/// timeout left set and reconnects only after timeouts.
pub open spec fn opened(s: SessionView, opts: ConnectOptions) -> bool {
    &&& s.opts == opts
    &&& s.log.len() >= 1
    &&& s.log[0] == (LinkEvent::Configure { ok: true })
    &&& reconnects_follow_timeouts(s.log)
    &&& leaves_timeout(s.log, io_timeout(opts))
    &&& !opts.reset_on_connect ==> s.log == seq![LinkEvent::Configure { ok: true }] && s.capabilities
        == (SessionCapabilities { syst_err: None, opc: None })
    &&& opts.reset_on_connect ==> {
        &&& s.log.len() >= 2
        &&& s.log[1] is Write
        &&& s.log[1]->Write_data == command_bytes("*CLS"@, opts.terminator@)
        &&& exists|reset: Result<()>|
            #[trigger] reset_run(s.log.skip(2), None, s.capabilities.opc, opts.terminator@, reset)
    }
}

/// Every write of `events` but a first one directly follows a pause.
pub open spec fn writes_after_pauses(events: Seq<LinkEvent>) -> bool {
    forall|i: int| 0 < i < events.len() && #[trigger] events[i] is Write ==> events[i - 1] is Pause
}

/// `events` send one command: they start with a write of it, and every later write
/// (a retry) directly follows a backoff pause.
pub open spec fn one_send(events: Seq<LinkEvent>) -> bool {
    events.len() > 0 && events[0] is Write && writes_after_pauses(events)
}

proof fn lemma_no_write_events(s: Seq<LinkEvent>)
    requires
        write_count(s) == 0,
    ensures
        forall|i: int| 0 <= i < s.len() ==> !(#[trigger] s[i] is Write),
        writes_after_pauses(s),
    decreases s.len(),
{
    if s.len() > 0 {
        lemma_no_write_events(s.drop_last());
        assert forall|i: int| 0 <= i < s.len() implies !(#[trigger] s[i] is Write) by {
            if i < s.len() - 1 {
                assert(s[i] == s.drop_last()[i]);
            }
        }
    }
}

proof fn lemma_quiet_after(a: Seq<LinkEvent>, b: Seq<LinkEvent>)
    requires
        writes_after_pauses(a),
        write_count(b) == 0,
    ensures
        writes_after_pauses(a + b),
        a.len() > 0 ==> (a + b)[0] == a[0],
{
    lemma_no_write_events(b);
    if b.len() > 0 {
        assert(!(b[0] is Write));
    }
    lemma_writes_after_pauses_concat(a, b);
}

proof fn lemma_writes_after_pauses_concat(a: Seq<LinkEvent>, b: Seq<LinkEvent>)
    requires
        writes_after_pauses(a),
        writes_after_pauses(b),
        a.len() > 0 && b.len() > 0 && b[0] is Write ==> a.last() is Pause,
    ensures
        writes_after_pauses(a + b),
{
    let c = a + b;
    assert forall|i: int| 0 < i < c.len() && #[trigger] c[i] is Write implies c[i - 1] is Pause by {
        if i < a.len() {
            assert(c[i] == a[i]);
            assert(c[i - 1] == a[i - 1]);
        } else if i == a.len() {
            assert(c[i] == b[0]);
            assert(c[i - 1] == a.last());
        } else {
            assert(c[i] == b[i - a.len()]);
            assert(c[i - 1] == b[i - a.len() - 1]);
        }
    }
}

/// The texts of `strings`, in order.
pub open spec fn texts_of(strings: Seq<String>) -> Seq<Seq<char>> {
    strings.map_values(|t: String| t@)
}

/// `seg` sent one query of `SYST:ERR?`.
pub open spec fn error_query(seg: Seq<LinkEvent>, terminator: Seq<char>) -> bool {
    one_send(seg) && writes_only(seg, command_bytes("SYST:ERR?"@, terminator))
}

/// The probe part of an error-queue read: nothing when support was already known
/// (as `known`), else one probe query of `SYST:ERR?` under 500 ms, supported exactly
/// when it was answered with an error-queue entry.
pub open spec fn syst_err_probe(pre: Seq<LinkEvent>, known: Option<bool>, supported: bool, terminator: Seq<char>) -> bool {
    match known {
        Some(v) => pre.len() == 0 && v == supported,
        None => {
            &&& one_send(pre)
            &&& writes_only(pre, command_bytes("SYST:ERR?"@, terminator))
            &&& supported <==> (delivered(pre, millis_duration(500), terminator) && match reply_of(pre, terminator) {
                Some(reply) => syst_err_supported_reply(reply),
                None => false,
            })
        },
    }
}

/// The queries of an error-queue drain, one segment each, under `timeout`: every
/// query but the last was answered with an error entry, the entries in order; it
/// succeeded (`ok`) after 51 entries or when the last query was answered with "no
/// error", and failed exactly when the last query went unanswered.
pub open spec fn error_drain(
    segs: Seq<Seq<LinkEvent>>,
    entries: Seq<Seq<char>>,
    timeout: Duration,
    terminator: Seq<char>,
    ok: bool,
) -> bool {
    &&& segs.len() >= 1
    &&& drain_prefix(segs, entries, timeout, terminator)
    &&& !ok ==> entries.len() == segs.len() - 1 && !delivered(segs.last(), timeout, terminator)
    &&& ok ==> (entries.len() == 51 && segs.len() == 51) || (entries.len() == segs.len() - 1 && delivered(
        segs.last(),
        timeout,
        terminator,
    ) && match reply_of(segs.last(), terminator) {
        Some(reply) => is_no_error_reply(reply),
        None => false,
    })
}

/// `segs` are error-queue queries, and the first ones were answered with `entries`,
/// which are error entries.
#[verifier::opaque]
pub open spec fn drain_prefix(
    segs: Seq<Seq<LinkEvent>>,
    entries: Seq<Seq<char>>,
    timeout: Duration,
    terminator: Seq<char>,
) -> bool {
    &&& entries.len() <= segs.len()
    &&& forall|k: int| 0 <= k < segs.len() ==> error_query(#[trigger] segs[k], terminator)
    &&& forall|k: int|
        0 <= k < entries.len() ==> delivered(#[trigger] segs[k], timeout, terminator) && reply_of(segs[k], terminator)
            == Some(entries[k]) && !is_no_error_reply(entries[k])
}

proof fn lemma_drain_push_query(
    segs: Seq<Seq<LinkEvent>>,
    entries: Seq<Seq<char>>,
    seg: Seq<LinkEvent>,
    timeout: Duration,
    terminator: Seq<char>,
)
    requires
        drain_prefix(segs, entries, timeout, terminator),
        error_query(seg, terminator),
    ensures
        drain_prefix(segs.push(seg), entries, timeout, terminator),
        segs.push(seg).last() == seg,
{
    reveal(drain_prefix);
    let t = segs.push(seg);
    assert forall|k: int| 0 <= k < t.len() implies error_query(#[trigger] t[k], terminator) by {
        if k < segs.len() {
            assert(t[k] == segs[k]);
        }
    }
    assert forall|k: int| 0 <= k < entries.len() implies delivered(#[trigger] t[k], timeout, terminator)
        && reply_of(t[k], terminator) == Some(entries[k]) && !is_no_error_reply(entries[k]) by {
        assert(t[k] == segs[k]);
    }
}

proof fn lemma_drain_push_entry(
    segs: Seq<Seq<LinkEvent>>,
    entries: Seq<Seq<char>>,
    entry: Seq<char>,
    timeout: Duration,
    terminator: Seq<char>,
)
    requires
        drain_prefix(segs, entries, timeout, terminator),
        entries.len() + 1 == segs.len(),
        delivered(segs.last(), timeout, terminator),
        reply_of(segs.last(), terminator) == Some(entry),
        !is_no_error_reply(entry),
    ensures
        drain_prefix(segs, entries.push(entry), timeout, terminator),
{
    reveal(drain_prefix);
    let t = entries.push(entry);
    assert forall|k: int| 0 <= k < t.len() implies delivered(#[trigger] segs[k], timeout, terminator)
        && reply_of(segs[k], terminator) == Some(t[k]) && !is_no_error_reply(t[k]) by {
        if k < entries.len() {
            assert(t[k] == entries[k]);
        }
    }
}

/// What an error-queue read did: the probe, then, when the queue is supported, the
/// drain of `entries`; `events` are the two together.
pub open spec fn error_queue_read(
    pre: Seq<LinkEvent>,
    segs: Seq<Seq<LinkEvent>>,
    entries: Seq<Seq<char>>,
    events: Seq<LinkEvent>,
    known: Option<bool>,
    after: Option<bool>,
    timeout: Duration,
    terminator: Seq<char>,
    r: Result<Vec<String>>,
) -> bool {
    &&& events == pre + segs.flatten()
    &&& after is Some
    &&& syst_err_probe(pre, known, after == Some(true), terminator)
    &&& after == Some(false) ==> segs.len() == 0 && entries.len() == 0 && r is Ok
    &&& after == Some(true) ==> error_drain(segs, entries, timeout, terminator, r is Ok)
    &&& r matches Ok(v) ==> texts_of(v@) == entries
}

/// A reset: `*RST` written once as the first event, ending the reset with its error
/// when the write fails; otherwise the completion wait follows, which does nothing
/// when `*OPC?` is known unsupported (`opc_before`), and otherwise succeeds exactly
/// when its completion query is answered within 30 s.
pub open spec fn reset_run(
    events: Seq<LinkEvent>,
    opc_before: Option<bool>,
    opc_after: Option<bool>,
    terminator: Seq<char>,
    r: Result<()>,
) -> bool {
    &&& events.len() >= 1
    &&& events[0] is Write
    &&& events[0]->Write_data == command_bytes("*RST"@, terminator)
    &&& !(events[0]->Write_outcome is Sent) ==> events.len() == 1 && r is Err
    &&& events[0]->Write_outcome is TimedOut ==> (r matches Err(Error::Timeout))
    &&& events[0]->Write_outcome is Sent ==> {
        &&& writes_only(events.skip(1), command_bytes("*OPC?"@, terminator))
        &&& opc_before == Some(false) ==> events.len() == 1 && r is Ok
        &&& opc_after == Some(false) ==> r is Ok
        &&& opc_after == Some(true) ==> (r is Ok <==> delivered(events, secs_duration(30), terminator))
    }
}

/// `after` is `before` with events appended.
pub open spec fn extends(before: Seq<LinkEvent>, after: Seq<LinkEvent>) -> bool {
    before.len() <= after.len() && after.take(before.len() as int) == before
}

/// The events that `after` appended to `before`.
pub open spec fn appended(before: Seq<LinkEvent>, after: Seq<LinkEvent>) -> Seq<LinkEvent> {
    after.skip(before.len() as int)
}

proof fn lemma_received_concat(a: Seq<LinkEvent>, b: Seq<LinkEvent>)
    ensures
        received(a + b) == received(a) + received(b),
    decreases b.len(),
{
    if b.len() == 0 {
        assert(a + b =~= a);
        assert(received(a) + received(b) =~= received(a));
    } else {
        lemma_received_concat(a, b.drop_last());
        assert((a + b).drop_last() =~= a + b.drop_last());
        assert((a + b).last() == b.last());
        match b.last() {
            LinkEvent::Read { outcome: ReadOutcome::Bytes(x) } => {
                assert(received(a) + received(b.drop_last()) + x =~= received(a) + (received(
                    b.drop_last(),
                ) + x));
            },
            _ => {},
        }
    }
}

proof fn lemma_since_last_write_concat(a: Seq<LinkEvent>, b: Seq<LinkEvent>)
    ensures
        write_count(b) == 0 ==> since_last_write(a + b) == since_last_write(a) + b,
        write_count(b) > 0 ==> since_last_write(a + b) == since_last_write(b),
    decreases b.len(),
{
    if b.len() == 0 {
        assert(a + b =~= a);
        assert(since_last_write(a) + b =~= since_last_write(a));
    } else {
        lemma_since_last_write_concat(a, b.drop_last());
        assert((a + b).drop_last() =~= a + b.drop_last());
        assert((a + b).last() == b.last());
        if !(b.last() is Write) {
            assert(since_last_write(a) + b.drop_last().push(b.last()) =~= since_last_write(a)
                + b);
            assert(b.drop_last().push(b.last()) =~= b);
        }
    }
}

proof fn lemma_last_timeout_concat(a: Seq<LinkEvent>, b: Seq<LinkEvent>)
    ensures
        last_timeout_setting(a + b) == match last_timeout_setting(b) {
            Some(x) => Some(x),
            None => last_timeout_setting(a),
        },
    decreases b.len(),
{
    if b.len() == 0 {
        assert(a + b =~= a);
    } else {
        lemma_last_timeout_concat(a, b.drop_last());
        assert((a + b).drop_last() =~= a + b.drop_last());
        assert((a + b).last() == b.last());
    }
}

proof fn lemma_write_count_concat(a: Seq<LinkEvent>, b: Seq<LinkEvent>)
    ensures
        write_count(a + b) == write_count(a) + write_count(b),
    decreases b.len(),
{
    if b.len() == 0 {
        assert(a + b =~= a);
    } else {
        lemma_write_count_concat(a, b.drop_last());
        assert((a + b).drop_last() =~= a + b.drop_last());
        assert((a + b).last() == b.last());
    }
}

proof fn lemma_reconnects_concat(a: Seq<LinkEvent>, b: Seq<LinkEvent>)
    requires
        reconnects_follow_timeouts(a),
        reconnects_follow_timeouts(b),
    ensures
        reconnects_follow_timeouts(a + b),
{
    let c = a + b;
    assert forall|i: int| 0 <= i < c.len() && #[trigger] c[i] is Reconnect implies i > 0
        && timed_out(c[i - 1]) by {
        if i < a.len() {
            assert(c[i] == a[i]);
            assert(c[i - 1] == a[i - 1]);
        } else {
            assert(c[i] == b[i - a.len()]);
            assert(c[i - 1] == b[i - a.len() - 1]);
        }
    }
}

proof fn lemma_writes_only_concat(a: Seq<LinkEvent>, b: Seq<LinkEvent>, data: Seq<u8>)
    requires
        writes_only(a, data),
        writes_only(b, data),
    ensures
        writes_only(a + b, data),
{
    let c = a + b;
    assert forall|i: int| 0 <= i < c.len() && #[trigger] c[i] is Write implies c[i]->Write_data
        == data by {
        if i < a.len() {
            assert(c[i] == a[i]);
        } else {
            assert(c[i] == b[i - a.len()]);
        }
    }
}

proof fn lemma_no_writes(s: Seq<LinkEvent>)
    requires
        write_count(s) == 0,
    ensures
        forall|d: Seq<u8>| #[trigger] writes_only(s, d),
    decreases s.len(),
{
    if s.len() > 0 {
        lemma_no_writes(s.drop_last());
        assert forall|d: Seq<u8>| #[trigger] writes_only(s, d) by {
            assert(writes_only(s.drop_last(), d));
            assert forall|i: int| 0 <= i < s.len() && #[trigger] s[i] is Write implies s[i]->Write_data
                == d by {
                if i < s.len() - 1 {
                    assert(s[i] == s.drop_last()[i]);
                }
            }
        }
    }
}

/// Splits a log that extends `before` into `before` and what was appended.
proof fn lemma_split(before: Seq<LinkEvent>, after: Seq<LinkEvent>)
    requires
        extends(before, after),
    ensures
        after == before + appended(before, after),
{
    assert(after =~= before + appended(before, after));
}

proof fn lemma_extends_push(a: Seq<LinkEvent>, b: Seq<LinkEvent>, e: LinkEvent)
    requires
        extends(a, b),
    ensures
        extends(a, b.push(e)),
        appended(a, b.push(e)) == appended(a, b).push(e),
        appended(a, b.push(e)).drop_last() == appended(a, b),
        appended(a, b.push(e)).last() == e,
{
    assert(b.push(e).take(a.len() as int) =~= b.take(a.len() as int));
    assert(appended(a, b.push(e)) =~= appended(a, b).push(e));
    assert(appended(a, b.push(e)).drop_last() =~= appended(a, b));
}

/// What appending one event does to the log's summaries.
proof fn lemma_push(s: Seq<LinkEvent>, e: LinkEvent)
    ensures
        write_count(s.push(e)) == write_count(s) + if e is Write {
            1nat
        } else {
            0nat
        },
        last_timeout_setting(s.push(e)) == match e {
            LinkEvent::SetTimeout { timeout, ok } => Some((timeout, ok)),
            _ => last_timeout_setting(s),
        },
        received(s.push(e)) == match e {
            LinkEvent::Read { outcome: ReadOutcome::Bytes(b) } => received(s) + b,
            _ => received(s),
        },
        reconnects_follow_timeouts(s) && (e is Reconnect ==> s.len() > 0 && timed_out(s.last()))
            ==> reconnects_follow_timeouts(s.push(e)),
        forall|d: Seq<u8>|
            #[trigger] writes_only(s, d) && (e is Write ==> e->Write_data == d) ==> writes_only(
                s.push(e),
                d,
            ),
        since_last_write(s.push(e)) == if e is Write {
            Seq::<LinkEvent>::empty()
        } else {
            since_last_write(s).push(e)
        },
        reconnect_count(s.push(e)) == reconnect_count(s) + if e is Reconnect {
            1nat
        } else {
            0nat
        },
        writes_timed_out(s) && (e is Write ==> e->Write_outcome is TimedOut) ==> writes_timed_out(
            s.push(e),
        ),
        forall|d: Duration|
            #[trigger] pauses_of(s, d) && (e is Pause ==> e->Pause_delay == d) ==> pauses_of(s.push(e), d),
        no_reads(s) && !(e is Read) ==> no_reads(s.push(e)),
        only_reads(s) && e is Read ==> only_reads(s.push(e)),
        writes_after_pauses(s) && (e is Write && s.len() > 0 ==> s.last() is Pause) ==> writes_after_pauses(
            s.push(e),
        ),
{
    let t = s.push(e);
    assert(t.drop_last() =~= s);
    assert(t.last() == e);
    if writes_timed_out(s) && (e is Write ==> e->Write_outcome is TimedOut) {
        assert forall|i: int| 0 <= i < t.len() && #[trigger] t[i] is Write implies t[i]->Write_outcome
            is TimedOut by {
            if i < s.len() {
                assert(t[i] == s[i]);
            }
        }
    }
    assert forall|d: Duration| #[trigger] pauses_of(s, d) && (e is Pause ==> e->Pause_delay == d) implies pauses_of(
        t,
        d,
    ) by {
        assert forall|i: int| 0 <= i < t.len() && #[trigger] t[i] is Pause implies t[i]->Pause_delay == d by {
            if i < s.len() {
                assert(t[i] == s[i]);
            }
        }
    }
    if writes_after_pauses(s) && (e is Write && s.len() > 0 ==> s.last() is Pause) {
        assert forall|i: int| 0 < i < t.len() && #[trigger] t[i] is Write implies t[i - 1] is Pause by {
            if i < s.len() {
                assert(t[i] == s[i]);
                assert(t[i - 1] == s[i - 1]);
            } else {
                assert(t[i - 1] == s.last());
            }
        }
    }
    if only_reads(s) && e is Read {
        assert forall|i: int| 0 <= i < t.len() implies #[trigger] t[i] is Read by {
            if i < s.len() {
                assert(t[i] == s[i]);
            }
        }
    }
    if no_reads(s) && !(e is Read) {
        assert forall|i: int| 0 <= i < t.len() implies !(#[trigger] t[i] is Read) by {
            if i < s.len() {
                assert(t[i] == s[i]);
            }
        }
    }
    if reconnects_follow_timeouts(s) && (e is Reconnect ==> s.len() > 0 && timed_out(s.last())) {
        assert forall|i: int| 0 <= i < t.len() && #[trigger] t[i] is Reconnect implies i > 0
            && timed_out(t[i - 1]) by {
            if i < s.len() {
                assert(t[i] == s[i]);
                assert(t[i - 1] == s[i - 1]);
            } else {
                assert(t[i - 1] == s.last());
            }
        }
    }
    assert forall|d: Seq<u8>|
        #[trigger] writes_only(s, d) && (e is Write ==> e->Write_data == d) implies writes_only(
        t,
        d,
    ) by {
        assert forall|i: int| 0 <= i < t.len() && #[trigger] t[i] is Write implies t[i]->Write_data
            == d by {
            if i < s.len() {
                assert(t[i] == s[i]);
            }
        }
    }
}

/// What two successive extensions of a log append, taken together.
pub proof fn lemma_chain(a: Seq<LinkEvent>, b: Seq<LinkEvent>, c: Seq<LinkEvent>)
    requires
        extends(a, b),
        extends(b, c),
    ensures
        extends(a, c),
        appended(a, c) == appended(a, b) + appended(b, c),
        reconnects_follow_timeouts(appended(a, b)) && reconnects_follow_timeouts(appended(b, c))
            ==> reconnects_follow_timeouts(appended(a, c)),
        last_timeout_setting(appended(a, c)) == match last_timeout_setting(appended(b, c)) {
            Some(x) => Some(x),
            None => last_timeout_setting(appended(a, b)),
        },
        write_count(appended(a, c)) == write_count(appended(a, b)) + write_count(appended(b, c)),
        received(appended(a, c)) == received(appended(a, b)) + received(appended(b, c)),
        forall|data: Seq<u8>|
            writes_only(appended(a, b), data) && writes_only(appended(b, c), data)
                ==> #[trigger] writes_only(appended(a, c), data),
{
    assert(c.take(a.len() as int) =~= b.take(a.len() as int));
    assert(appended(a, c) =~= appended(a, b) + appended(b, c));
    let x = appended(a, b);
    let y = appended(b, c);
    if reconnects_follow_timeouts(x) && reconnects_follow_timeouts(y) {
        lemma_reconnects_concat(x, y);
    }
    lemma_last_timeout_concat(x, y);
    lemma_write_count_concat(x, y);
    lemma_received_concat(x, y);
    assert forall|data: Seq<u8>|
        writes_only(x, data) && writes_only(y, data) implies #[trigger] writes_only(
        appended(a, c),
        data,
    ) by {
        lemma_writes_only_concat(x, y, data);
    }
}

fn opt_str(o: &Option<String>) -> (r: Option<&str>)
    ensures
        match o {
            Some(s) => r matches Some(t) && t@ == s@,
            None => r is None,
        },
{
    match o {
        Some(s) => Some(s.as_str()),
        None => None,
    }
}

/// An error-queue reply that reports no error.
pub open spec fn is_no_error_reply(reply: Seq<char>) -> bool {
    starts_with(reply, "0,"@) || starts_with(reply, "+0,"@)
}

/// A reply framed after the last write of `b` is the reply of anything that `b`
/// follows.
pub proof fn lemma_reply_after(a: Seq<LinkEvent>, b: Seq<LinkEvent>, terminator: Seq<char>)
    requires
        write_count(b) > 0,
    ensures
        reply_of(a + b, terminator) == reply_of(b, terminator),
{
    lemma_since_last_write_concat(a, b);
}

/// Whether a query was answered is decided by the events of its last write: a log
/// that ends with queries is answered when its last query is.
pub proof fn lemma_delivered_after(a: Seq<LinkEvent>, b: Seq<LinkEvent>, timeout: Duration, terminator: Seq<char>)
    requires
        write_count(b) > 0,
    ensures
        delivered(a + b, timeout, terminator) == delivered(b, timeout, terminator),
        reply_of(a + b, terminator) == reply_of(b, terminator),
{
    lemma_since_last_write_concat(a, b);
    lemma_write_count_concat(a, b);
}

/// What holds of each call's events holds of a whole history: when every call left
/// the I/O timeout set (or failed setting it) and reconnected only after timeouts, so
/// does the session over all of them.
pub proof fn lemma_history(a: Seq<LinkEvent>, b: Seq<LinkEvent>, io: Duration)
    requires
        leaves_timeout(a, io),
        leaves_timeout(b, io),
        reconnects_follow_timeouts(a),
        reconnects_follow_timeouts(b),
    ensures
        leaves_timeout(a + b, io),
        reconnects_follow_timeouts(a + b),
{
    lemma_last_timeout_concat(a, b);
    lemma_reconnects_concat(a, b);
}

/// Whether an error-queue reply reports no error (`0,` or `+0,` first).
pub fn reports_no_error(reply: &str) -> (r: bool)
    ensures
        r == is_no_error_reply(reply@),
{
    proof {
        reveal_strlit("0,");
        reveal_strlit("+0,");
    }
    let c = chars_of(reply);
    let plain = chars_of("0,");
    let signed = chars_of("+0,");
    chars_start_with(c.as_slice(), plain.as_slice()) || chars_start_with(c.as_slice(), signed.as_slice())
}

/// SCPI session over a boxed transport.
pub struct ScpiSession {
    transport: DynTransport,
    opts: ConnectOptions,
    capabilities: SessionCapabilities,
    read_buffer: Vec<u8>,
    diagnostics: Option<Diagnostics>,
    pending_command: Option<String>,
    log: Ghost<Seq<LinkEvent>>,
}

impl View for ScpiSession {
    type V = SessionView;

    closed spec fn view(&self) -> SessionView {
        SessionView { opts: self.opts, capabilities: self.capabilities, log: self.log@ }
    }
}

/// Whether the options of `s` ask for reconnects.
spec fn start_opts_reconnect(s: &ScpiSession) -> bool {
    s.opts.reconnect_on_failure
}

impl ScpiSession {
    /// The bytes read and not yet framed.
    pub closed spec fn buffered(&self) -> Seq<u8> {
        self.read_buffer@
    }

    /// The diagnostics the session reports to, if any.
    pub closed spec fn reports_to(&self) -> Option<DiagnosticsView> {
        match self.diagnostics {
            Some(d) => Some(d@),
            None => None,
        }
    }

    /// The transport the session drives.
    pub closed spec fn link(&self) -> &(dyn Transport + 'static) {
        &*self.transport
    }

    /// The state other than the log is the same in both sessions.
    spec fn same_state(&self, other: &ScpiSession) -> bool {
        &&& self.opts == other.opts
        &&& self.capabilities == other.capabilities
        &&& self.diagnostics == other.diagnostics
    }

    fn link_set_timeout(&mut self, timeout: Duration) -> (r: Result<()>)
        ensures
            final(self).same_state(old(self)),
            final(self).read_buffer@ == old(self).read_buffer@,
            final(self).pending_command == old(self).pending_command,
            final(self).log@ == old(self).log@.push(LinkEvent::SetTimeout { timeout, ok: r is Ok }),
    {
        let r = self.transport.set_read_timeout(timeout);
        self.log = Ghost(self.log@.push(LinkEvent::SetTimeout { timeout, ok: r is Ok }));
        r
    }

    fn link_write(&mut self, data: &[u8]) -> (r: Result<()>)
        ensures
            final(self).same_state(old(self)),
            final(self).read_buffer@ == old(self).read_buffer@,
            final(self).pending_command == old(self).pending_command,
            final(self).log@ == old(self).log@.push(
                LinkEvent::Write { data: data@, outcome: write_outcome(r) },
            ),
    {
        let r = self.transport.write(data);
        self.log = Ghost(self.log@.push(LinkEvent::Write { data: data@, outcome: write_outcome(r) }));
        r
    }

    /// Reads into `buf`; a count beyond the buffer's length is taken as the whole
    /// buffer.
    fn link_read(&mut self, buf: &mut [u8]) -> (r: Result<usize>)
        ensures
            final(self).same_state(old(self)),
            final(self).read_buffer@ == old(self).read_buffer@,
            final(self).pending_command == old(self).pending_command,
            final(buf)@.len() == old(buf)@.len(),
            r matches Ok(n) ==> n <= old(buf)@.len(),
            final(self).log@ == old(self).log@.push(
                LinkEvent::Read { outcome: read_outcome(r, final(buf)@) },
            ),
    {
        let r = self.transport.read(buf);
        let r = match r {
            Ok(n) => if n > buf.len() {
                Ok(buf.len())
            } else {
                Ok(n)
            },
            Err(e) => Err(e),
        };
        self.log = Ghost(self.log@.push(LinkEvent::Read { outcome: read_outcome(r, buf@) }));
        r
    }

    fn link_reconnect(&mut self) -> (r: Result<()>)
        ensures
            final(self).same_state(old(self)),
            final(self).read_buffer@ == old(self).read_buffer@,
            final(self).pending_command == old(self).pending_command,
            final(self).log@ == old(self).log@.push(LinkEvent::Reconnect { ok: r is Ok }),
    {
        let r = self.transport.reconnect();
        self.log = Ghost(self.log@.push(LinkEvent::Reconnect { ok: r is Ok }));
        r
    }

    fn link_pause(&mut self, delay: Duration)
        ensures
            final(self).same_state(old(self)),
            final(self).read_buffer@ == old(self).read_buffer@,
            final(self).pending_command == old(self).pending_command,
            final(self).log@ == old(self).log@.push(LinkEvent::Pause { delay }),
    {
        self.transport.pause(delay);
        self.log = Ghost(self.log@.push(LinkEvent::Pause { delay }));
    }

    fn record_success(&self, kind: CommsEventKind, command: Option<&str>, attempt: u32, started: &Instant) {
        if let Some(diag) = &self.diagnostics {
            diag.record_success(kind, command, attempt, elapsed_since(started));
        }
    }

    fn record_failure(
        &self,
        kind: CommsEventKind,
        command: Option<&str>,
        attempt: u32,
        started: &Instant,
        detail: &str,
    ) {
        if let Some(diag) = &self.diagnostics {
            diag.record_failure(kind, command, attempt, elapsed_since(started), detail);
        }
    }

    fn record_reconnect(&self) {
        if let Some(diag) = &self.diagnostics {
            diag.record_success(CommsEventKind::Reconnect, None, 1, duration_from_millis(0));
        }
    }

    /// Reconnects the transport, counting a success in the diagnostics.
    fn try_reconnect(&mut self)
        ensures
            final(self).same_state(old(self)),
            final(self).read_buffer@ == old(self).read_buffer@,
            final(self).pending_command == old(self).pending_command,
            final(self).log@ == old(self).log@.push(
                LinkEvent::Reconnect { ok: final(self).log@.last()->Reconnect_ok },
            ),
    {
        if self.link_reconnect().is_ok() {
            self.record_reconnect();
        }
    }

    /// Opens a session: applies the options to the transport, then clears the status
    /// and resets the instrument if the options ask for it.
    pub fn new(transport: DynTransport, opts: ConnectOptions) -> (r: Result<Self>)
        ensures
            r matches Ok(s) ==> opened(s@, opts) && s.reports_to() is None,
    {
        let mut transport = transport;
        transport.configure(&opts)?;
        let log: Ghost<Seq<LinkEvent>> = Ghost(Seq::empty().push(LinkEvent::Configure { ok: true }));
        let mut session = ScpiSession {
            transport,
            opts,
            capabilities: SessionCapabilities::unknown(),
            read_buffer: Vec::new(),
            diagnostics: None,
            pending_command: None,
            log,
        };
        proof {
            assert(session.log@ =~= seq![LinkEvent::Configure { ok: true }]);
            lemma_push(Seq::empty(), LinkEvent::Configure { ok: true });
            assert(Seq::<LinkEvent>::empty().push(LinkEvent::Configure { ok: true }) == session.log@);
            assert(last_timeout_setting(Seq::<LinkEvent>::empty()) is None);
        }
        if session.opts.reset_on_connect {
            let ghost start = session.log@;
            let _ = session.write("*CLS");
            let ghost mid = session.log@;
            let reset = session.reset_and_wait();
            proof {
                let cls = appended(start, mid);
                let rst = appended(mid, session.log@);
                assert(cls[0] == cls.last());
                assert(start.len() == 1);
                assert(session.log@ =~= start + cls + rst) by {
                    lemma_chain(start, mid, session.log@);
                    lemma_split(start, session.log@);
                }
                assert(session.log@[1] == cls[0]);
                assert(session.log@.skip(2) =~= rst);
                assert(reset_run(session.log@.skip(2), None, session@.capabilities.opc, session.opts.terminator@, reset));
                lemma_chain(start, mid, session.log@);
                lemma_split(start, session.log@);
                lemma_reconnects_concat(start, appended(start, session.log@));
                lemma_last_timeout_concat(start, appended(start, session.log@));
                assert(session.log@[0] == session.log@.take(1)[0]);
            }
        }
        Ok(session)
    }

    /// `*RST`, then waiting for the operation to complete.
    fn reset_and_wait(&mut self) -> (r: Result<()>)
        ensures
            final(self).reports_to() == old(self).reports_to(),
            final(self)@.opts == old(self)@.opts,
            extends(old(self)@.log, final(self)@.log),
            reconnects_follow_timeouts(appended(old(self)@.log, final(self)@.log)),
            leaves_timeout(appended(old(self)@.log, final(self)@.log), io_timeout(old(self)@.opts)),
            reset_run(
                appended(old(self)@.log, final(self)@.log),
                old(self)@.capabilities.opc,
                final(self)@.capabilities.opc,
                old(self)@.opts.terminator@,
                r,
            ),
    {
        let ghost start = self.log@;
        let w = self.write("*RST");
        let ghost mid = self.log@;
        proof {
            let first = appended(start, mid);
            assert(first[0] == first.last());
        }
        if let Err(e) = w {
            return Err(e);
        }
        let r = self.wait_complete();
        proof {
            lemma_chain(start, mid, self.log@);
            let first = appended(start, mid);
            let rest = appended(mid, self.log@);
            let all = appended(start, self.log@);
            assert(all[0] == first[0]);
            assert(all.skip(1) =~= rest);
            if self@.capabilities.opc == Some(true) {
                lemma_delivered_after(first, rest, secs_duration(30), old(self)@.opts.terminator@);
            }
        }
        r
    }

    /// The same session, reporting to `diagnostics`.
    pub fn with_diagnostics(self, diagnostics: Diagnostics) -> (r: Self)
        ensures
            r@ == self@,
            r.reports_to() == Some(diagnostics@),
            r.link() == self.link(),
    {
        ScpiSession { diagnostics: Some(diagnostics), ..self }
    }

    /// The transport under the session.
    pub fn transport(&self) -> &dyn Transport {
        &*self.transport
    }

    /// The options the session was opened with.
    pub fn options(&self) -> (r: &ConnectOptions)
        ensures
            *r == self@.opts,
    {
        &self.opts
    }

    /// Writes a command without expecting a response. The command is never repeated:
    /// a write that times out is not retried.
    pub fn write(&mut self, command: &str) -> (r: Result<()>)
        ensures
            final(self).reports_to() == old(self).reports_to(),
            final(self)@.opts == old(self)@.opts,
            final(self)@.capabilities == old(self)@.capabilities,
            extends(old(self)@.log, final(self)@.log),
            write_count(appended(old(self)@.log, final(self)@.log)) == 1,
            writes_only(
                appended(old(self)@.log, final(self)@.log),
                command_bytes(command@, old(self)@.opts.terminator@),
            ),
            reconnects_follow_timeouts(appended(old(self)@.log, final(self)@.log)),
            last_timeout_setting(appended(old(self)@.log, final(self)@.log)) is None,
            r is Ok <==> appended(old(self)@.log, final(self)@.log).last()
                matches LinkEvent::Write { outcome: WriteOutcome::Sent, .. },
            appended(old(self)@.log, final(self)@.log).len() == 1,
            appended(old(self)@.log, final(self)@.log)[0] is Write,
            (r matches Err(Error::Timeout)) <==> appended(old(self)@.log, final(self)@.log).last()
                matches LinkEvent::Write { outcome: WriteOutcome::TimedOut, .. },
    {
        self.write_with_retry(command, false)
    }

    /// Writes `command`, retrying a timed-out write of an idempotent command up to the
    /// configured retries.
    fn write_with_retry(&mut self, command: &str, idempotent: bool) -> (r: Result<()>)
        ensures
            final(self).same_state(old(self)),
            extends(old(self)@.log, final(self)@.log),
            1 <= write_count(appended(old(self)@.log, final(self)@.log)) <= write_attempts(
                idempotent,
                old(self)@.opts.retries,
            ),
            writes_only(
                appended(old(self)@.log, final(self)@.log),
                command_bytes(command@, old(self)@.opts.terminator@),
            ),
            reconnects_follow_timeouts(appended(old(self)@.log, final(self)@.log)),
            last_timeout_setting(appended(old(self)@.log, final(self)@.log)) is None,
            appended(old(self)@.log, final(self)@.log).len() > 0,
            r is Ok <==> appended(old(self)@.log, final(self)@.log).last()
                matches LinkEvent::Write { outcome: WriteOutcome::Sent, .. },
            retry_shape(
                appended(old(self)@.log, final(self)@.log),
                old(self)@.opts.reconnect_on_failure,
                old(self)@.opts.retry_backoff,
            ),
            no_reads(appended(old(self)@.log, final(self)@.log)),
            (r matches Err(Error::Timeout)) <==> appended(old(self)@.log, final(self)@.log).last()
                matches LinkEvent::Write { outcome: WriteOutcome::TimedOut, .. },
            r matches Err(Error::Timeout) ==> write_count(appended(old(self)@.log, final(self)@.log))
                == write_attempts(idempotent, old(self)@.opts.retries),
            write_count(appended(old(self)@.log, final(self)@.log)) == 1 ==> appended(
                old(self)@.log,
                final(self)@.log,
            ).len() == 1,
            !old(self)@.opts.reconnect_on_failure ==> no_reconnects(appended(old(self)@.log, final(self)@.log)),
            r matches Err(e) && !(e matches Error::Timeout) ==> failed_hard(appended(old(self)@.log, final(self)@.log)),
            one_send(appended(old(self)@.log, final(self)@.log)),
    {
        let payload = normalize_command(command, self.opts.terminator.as_str());
        let data = payload.as_str().as_bytes();
        let ghost sent = command_bytes(command@, self.opts.terminator@);
        let max_attempts = max_write_attempts(idempotent, self.opts.retries);
        let mut attempts: u32 = 0;
        let ghost start = self.log@;
        proof {
            assert(start.take(start.len() as int) =~= start);
            assert(appended(start, start) =~= Seq::<LinkEvent>::empty());
        }
        loop
            invariant
                self.same_state(old(self)),
                start == old(self).log@,
                data@ == sent,
                sent == command_bytes(command@, self.opts.terminator@),
                max_attempts == write_attempts(idempotent, self.opts.retries),
                max_attempts >= 1,
                attempts < max_attempts,
                extends(start, self.log@),
                write_count(appended(start, self.log@)) == attempts,
                writes_only(appended(start, self.log@), sent),
                reconnects_follow_timeouts(appended(start, self.log@)),
                last_timeout_setting(appended(start, self.log@)) is None,
                writes_timed_out(appended(start, self.log@)),
                reconnect_count(appended(start, self.log@)) == if self.opts.reconnect_on_failure {
                    attempts as nat
                } else {
                    0nat
                },
                pauses_of(appended(start, self.log@), self.opts.retry_backoff),
                no_reads(appended(start, self.log@)),
                attempts == 0 ==> appended(start, self.log@).len() == 0,
                !self.opts.reconnect_on_failure ==> no_reconnects(appended(start, self.log@)),
                writes_after_pauses(appended(start, self.log@)),
                attempts > 0 ==> appended(start, self.log@).len() > 0 && appended(start, self.log@).last() is Pause
                    && appended(start, self.log@)[0] is Write,
            decreases max_attempts - attempts,
        {
            attempts = attempts + 1;
            let started = instant_now();
            self.pending_command = Some(command.to_owned());
            let ghost before = self.log@;
            let r = self.link_write(data);
            proof {
                lemma_extends_push(start, before, self.log@.last());
                lemma_push(appended(start, before), self.log@.last());
            }
            let event = match &r {
                Ok(()) => WriteEvent::Sent,
                Err(Error::Timeout) => WriteEvent::TimedOut,
                Err(_) => WriteEvent::Failed,
            };
            match after_write(event, attempts, max_attempts, self.opts.reconnect_on_failure) {
                WriteAction::Done => {
                    self.record_success(CommsEventKind::WriteOk, Some(command), attempts, &started);
                    return Ok(());
                },
                WriteAction::Retry { reconnect } => {
                    self.record_failure(
                        CommsEventKind::Timeout,
                        Some(command),
                        attempts,
                        &started,
                        "write timeout",
                    );
                    if reconnect {
                        let ghost mid = self.log@;
                        self.try_reconnect();
                        proof {
                            lemma_extends_push(start, mid, self.log@.last());
                            lemma_push(appended(start, mid), self.log@.last());
                        }
                    }
                    let ghost mid2 = self.log@;
                    self.link_pause(self.opts.retry_backoff);
                    proof {
                        lemma_extends_push(start, mid2, self.log@.last());
                        lemma_push(appended(start, mid2), self.log@.last());
                    }
                },
                WriteAction::TimeOut => {
                    self.record_failure(
                        CommsEventKind::Timeout,
                        Some(command),
                        attempts,
                        &started,
                        "write timeout",
                    );
                    return Err(Error::Timeout);
                },
                WriteAction::Fail => {
                    let e = match r {
                        Err(e) => e,
                        Ok(()) => Error::Timeout,
                    };
                    let detail = e.to_string();
                    self.record_failure(
                        CommsEventKind::WriteFailed,
                        Some(command),
                        attempts,
                        &started,
                        detail.as_str(),
                    );
                    return Err(e);
                },
            }
        }
    }

    /// Appends the first `n` bytes of `chunk` to the read buffer.
    fn buffer_chunk(&mut self, chunk: &Vec<u8>, n: usize)
        requires
            n <= chunk@.len(),
        ensures
            final(self).same_state(old(self)),
            final(self).log@ == old(self).log@,
            final(self).pending_command == old(self).pending_command,
            final(self).read_buffer@ == old(self).read_buffer@ + chunk@.take(n as int),
    {
        let mut i: usize = 0;
        while i < n
            invariant
                i <= n <= chunk@.len(),
                self.same_state(old(self)),
                self.log@ == old(self).log@,
                self.pending_command == old(self).pending_command,
                self.read_buffer@ == old(self).read_buffer@ + chunk@.take(i as int),
            decreases n - i,
        {
            self.read_buffer.push(chunk[i]);
            i = i + 1;
            assert(self.read_buffer@ =~= old(self).read_buffer@ + chunk@.take(i as int));
        }
    }

    /// Drains what the transport still has to read, until it reports nothing more.
    fn drain(&mut self) -> (r: Result<()>)
        ensures
            final(self).same_state(old(self)),
            extends(old(self)@.log, final(self)@.log),
            write_count(appended(old(self)@.log, final(self)@.log)) == 0,
            reconnects_follow_timeouts(appended(old(self)@.log, final(self)@.log)),
            last_timeout_setting(appended(old(self)@.log, final(self)@.log)) is None,
            r is Ok ==> final(self).read_buffer@.len() == 0,
            appended(old(self)@.log, final(self)@.log).len() >= 1,
            only_reads(appended(old(self)@.log, final(self)@.log)),
            r is Err <==> appended(old(self)@.log, final(self)@.log).last()
                matches LinkEvent::Read { outcome: ReadOutcome::Failed },
    {
        let mut chunk: Vec<u8> = vec![0u8; 256];
        let ghost start = self.log@;
        proof {
            assert(start.take(start.len() as int) =~= start);
            assert(appended(start, start) =~= Seq::<LinkEvent>::empty());
        }
        let mut reads: u32 = 0;
        loop
            invariant
                self.same_state(old(self)),
                start == old(self).log@,
                extends(start, self.log@),
                write_count(appended(start, self.log@)) == 0,
                reconnects_follow_timeouts(appended(start, self.log@)),
                last_timeout_setting(appended(start, self.log@)) is None,
                only_reads(appended(start, self.log@)),
            ensures
                appended(start, self.log@).len() >= 1,
                !(appended(start, self.log@).last() matches LinkEvent::Read { outcome: ReadOutcome::Failed }),
            decreases u32::MAX - reads,
        {
            let ghost before = self.log@;
            let rr = self.link_read(chunk.as_mut_slice());
            proof {
                lemma_extends_push(start, before, self.log@.last());
                lemma_push(appended(start, before), self.log@.last());
            }
            match rr {
                Ok(n) => {
                    if n == 0 || reads == u32::MAX {
                        break ;
                    }
                    reads = reads + 1;
                },
                Err(Error::Timeout) => {
                    break ;
                },
                Err(e) => {
                    return Err(e);
                },
            }
        }
        self.read_buffer.clear();
        Ok(())
    }

    /// Drains pending bytes from the transport, under a short read timeout, and then
    /// restores the I/O timeout.
    pub fn flush(&mut self) -> (r: Result<()>)
        ensures
            final(self).reports_to() == old(self).reports_to(),
            final(self)@.opts == old(self)@.opts,
            final(self)@.capabilities == old(self)@.capabilities,
            extends(old(self)@.log, final(self)@.log),
            write_count(appended(old(self)@.log, final(self)@.log)) == 0,
            reconnects_follow_timeouts(appended(old(self)@.log, final(self)@.log)),
            leaves_timeout(appended(old(self)@.log, final(self)@.log), io_timeout(old(self)@.opts)),
            appended(old(self)@.log, final(self)@.log).len() > 0,
            appended(old(self)@.log, final(self)@.log)[0] is SetTimeout,
            flush_run(appended(old(self)@.log, final(self)@.log), io_timeout(old(self)@.opts), r),
            r is Ok ==> final(self).buffered().len() == 0,
            no_reconnects(appended(old(self)@.log, final(self)@.log)),
    {
        let ghost start = self.log@;
        proof {
            assert(start.take(start.len() as int) =~= start);
            assert(appended(start, start) =~= Seq::<LinkEvent>::empty());
        }
        let short = duration_from_millis(50);
        let restore_to = self.opts.io_timeout();
        let set = self.link_set_timeout(short);
        proof {
            lemma_extends_push(start, start, self.log@.last());
            lemma_push(appended(start, start), self.log@.last());
        }
        if set.is_err() {
            return set;
        }
        let ghost mid = self.log@;
        let r = self.drain();
        proof {
            lemma_chain(start, mid, self.log@);
        }
        let ghost mid2 = self.log@;
        let _ = self.link_set_timeout(restore_to);
        proof {
            lemma_extends_push(start, mid2, self.log@.last());
            lemma_push(appended(start, mid2), self.log@.last());
            assert(appended(start, mid2)[0] == appended(start, mid)[0]);
            assert(appended(start, self.log@)[0] == appended(start, mid2)[0]);
            let all = appended(start, self.log@);
            let first = appended(start, mid);
            let reads = appended(mid, mid2);
            assert(first =~= seq![LinkEvent::SetTimeout { timeout: millis_duration(50), ok: true }]);
            assert(appended(start, mid2) == first + reads);
            assert(all == (first + reads).push(all.last()));
            assert(all.subrange(1, all.len() - 1) =~= reads);
            assert(all[all.len() - 2] == reads.last());
            assert forall|i: int| 0 <= i < all.len() implies !(#[trigger] all[i] is Reconnect) by {
                if 1 <= i < all.len() - 1 {
                    assert(all[i] == reads[i - 1]);
                }
            }
        }
        r
    }

    /// Reads until the buffered bytes frame a response. A read that returns nothing
    /// or times out ends it with a timeout; only a timed-out read reconnects.
    fn read_framed(&mut self) -> (r: Result<Vec<u8>>)
        ensures
            final(self).same_state(old(self)),
            extends(old(self)@.log, final(self)@.log),
            write_count(appended(old(self)@.log, final(self)@.log)) == 0,
            reconnects_follow_timeouts(appended(old(self)@.log, final(self)@.log)),
            last_timeout_setting(appended(old(self)@.log, final(self)@.log)) is None,
            r matches Ok(p) ==> frame_response(
                received(appended(old(self)@.log, final(self)@.log)),
                encode_utf8(old(self)@.opts.terminator@),
            ) matches FrameOutcome::Framed { payload, consumed: _ } && payload == p@,
            r is Ok ==> only_reads(appended(old(self)@.log, final(self)@.log)),
            appended(old(self)@.log, final(self)@.log).len() >= 1,
            !old(self)@.opts.reconnect_on_failure ==> no_reconnects(appended(old(self)@.log, final(self)@.log)),
            r matches Err(e) && !(e matches Error::Timeout) ==> appended(old(self)@.log, final(self)@.log).last()
                matches LinkEvent::Read { outcome: ReadOutcome::Failed },
            r is Err ==> !(frame_response(
                received(appended(old(self)@.log, final(self)@.log)),
                encode_utf8(old(self)@.opts.terminator@),
            ) is Framed),
    {
        self.read_buffer.clear();
        let command = clone_text(&self.pending_command);
        let mut chunk: Vec<u8> = vec![0u8; 1024];
        let ghost start = self.log@;
        let ghost term = encode_utf8(self.opts.terminator@);
        proof {
            assert(start.take(start.len() as int) =~= start);
            assert(appended(start, start) =~= Seq::<LinkEvent>::empty());
            assert(self.read_buffer@ =~= received(appended(start, start)));
        }
        let mut rounds: u64 = 0;
        loop
            invariant
                self.same_state(old(self)),
                start == old(self).log@,
                term == encode_utf8(self.opts.terminator@),
                extends(start, self.log@),
                write_count(appended(start, self.log@)) == 0,
                reconnects_follow_timeouts(appended(start, self.log@)),
                last_timeout_setting(appended(start, self.log@)) is None,
                self.read_buffer@ == received(appended(start, self.log@)),
                only_reads(appended(start, self.log@)),
                !(frame_response(received(appended(start, self.log@)), term) is Framed),
                appended(start, self.log@).len() >= rounds,
            decreases u64::MAX - rounds,
        {
            if rounds == u64::MAX {
                return Err(Error::Timeout);
            }
            rounds = rounds + 1;
            let started = instant_now();
            let ghost before = self.log@;
            let rr = self.link_read(chunk.as_mut_slice());
            proof {
                lemma_extends_push(start, before, self.log@.last());
                lemma_push(appended(start, before), self.log@.last());
            }
            let event = match &rr {
                Ok(n) => if *n == 0 {
                    ReadEvent::Nothing
                } else {
                    ReadEvent::Bytes
                },
                Err(Error::Timeout) => ReadEvent::TimedOut,
                Err(_) => ReadEvent::Failed,
            };
            if let Ok(n) = rr {
                self.buffer_chunk(&chunk, n);
            }
            let action = after_read(
                self.read_buffer.as_slice(),
                self.opts.terminator.as_str(),
                event,
                self.opts.reconnect_on_failure,
            );
            match action {
                ReadAction::Deliver(payload) => {
                    self.record_success(CommsEventKind::ReadOk, opt_str(&command), 1, &started);
                    return Ok(payload);
                },
                ReadAction::KeepReading => {},
                ReadAction::TimeOut { reconnect } => {
                    if reconnect {
                        let ghost mid = self.log@;
                        self.try_reconnect();
                        proof {
                            lemma_extends_push(start, mid, self.log@.last());
                            lemma_push(appended(start, mid), self.log@.last());
                        }
                    }
                    let detail = if event == ReadEvent::Nothing {
                        "zero-byte read"
                    } else {
                        "read timeout"
                    };
                    self.record_failure(CommsEventKind::Timeout, opt_str(&command), 1, &started, detail);
                    return Err(Error::Timeout);
                },
                ReadAction::Fail => {
                    let e = match rr {
                        Err(e) => e,
                        Ok(_) => Error::Timeout,
                    };
                    let detail = e.to_string();
                    self.record_failure(
                        CommsEventKind::ReadFailed,
                        opt_str(&command),
                        1,
                        &started,
                        detail.as_str(),
                    );
                    return Err(e);
                },
            }
        }
    }

    /// Reads one framed response under `timeout`, then restores the I/O timeout
    /// whatever the read gave.
    fn read_response(&mut self, timeout: Duration) -> (r: Result<Vec<u8>>)
        ensures
            final(self).same_state(old(self)),
            extends(old(self)@.log, final(self)@.log),
            write_count(appended(old(self)@.log, final(self)@.log)) == 0,
            reconnects_follow_timeouts(appended(old(self)@.log, final(self)@.log)),
            leaves_timeout(appended(old(self)@.log, final(self)@.log), io_timeout(old(self)@.opts)),
            last_timeout_setting(appended(old(self)@.log, final(self)@.log)) is Some,
            r matches Ok(p) ==> frame_response(
                received(appended(old(self)@.log, final(self)@.log)),
                encode_utf8(old(self)@.opts.terminator@),
            ) matches FrameOutcome::Framed { payload, consumed: _ } && payload == p@,
            appended(old(self)@.log, final(self)@.log).len() >= 1,
            appended(old(self)@.log, final(self)@.log)[0] matches LinkEvent::SetTimeout { timeout: t, .. }
                && t == timeout,
            appended(old(self)@.log, final(self)@.log).last() is SetTimeout,
            appended(old(self)@.log, final(self)@.log)[0]->SetTimeout_ok ==> appended(
                old(self)@.log,
                final(self)@.log,
            ).len() >= 2,
            r is Ok <==> read_window(
                appended(old(self)@.log, final(self)@.log),
                timeout,
                old(self)@.opts.terminator@,
            ),
            !old(self)@.opts.reconnect_on_failure ==> no_reconnects(appended(old(self)@.log, final(self)@.log)),
            r matches Err(e) && !(e matches Error::Timeout) ==> failed_hard(appended(old(self)@.log, final(self)@.log)),
    {
        let ghost start = self.log@;
        proof {
            assert(start.take(start.len() as int) =~= start);
            assert(appended(start, start) =~= Seq::<LinkEvent>::empty());
        }
        let restore_to = self.opts.io_timeout();
        let set = self.link_set_timeout(timeout);
        proof {
            lemma_extends_push(start, start, self.log@.last());
            lemma_push(appended(start, start), self.log@.last());
        }
        if let Err(e) = set {
            return Err(e);
        }
        let ghost mid = self.log@;
        let r = self.read_framed();
        proof {
            lemma_chain(start, mid, self.log@);
        }
        let ghost mid2 = self.log@;
        let _ = self.link_set_timeout(restore_to);
        proof {
            lemma_extends_push(start, mid2, self.log@.last());
            lemma_push(appended(start, mid2), self.log@.last());
            let all = appended(start, self.log@);
            let first = appended(start, mid);
            let reads = appended(mid, mid2);
            assert(first =~= seq![LinkEvent::SetTimeout { timeout, ok: true }]);
            assert(appended(start, mid2) == first + reads);
            assert(all == (first + reads).push(all.last()));
            assert(all.subrange(1, all.len() - 1) =~= reads);
            assert(all[0] == first[0]);
            lemma_received_concat(first, reads);
            assert(received(first) =~= Seq::<u8>::empty()) by {
                assert(first.drop_last() =~= Seq::<LinkEvent>::empty());
            }
            assert(received(first + reads) =~= received(reads));
            assert(received(all) == received(first + reads));
            if !start_opts_reconnect(old(self)) {
                lemma_no_reconnects_concat(first, reads);
                lemma_no_reconnects_concat(first + reads, seq![all.last()]);
                assert(all =~= first + reads + seq![all.last()]);
            }
            if r is Err && !(r matches Err(Error::Timeout)) {
                let k = reads.len() - 1;
                assert(all[1 + k] == reads.last());
            }
        }
        r
    }

    /// Sends a query and returns the response string, trimmed. A query whose read
    /// times out is flushed and sent again, up to the configured retries, waiting a
    /// little longer after each attempt.
    #[verifier::rlimit(100)]
    #[verifier::spinoff_prover]
    pub fn query_with_timeout(&mut self, command: &str, timeout: Duration) -> (r: Result<String>)
        ensures
            final(self).reports_to() == old(self).reports_to(),
            final(self)@.opts == old(self)@.opts,
            final(self)@.capabilities == old(self)@.capabilities,
            extends(old(self)@.log, final(self)@.log),
            writes_only(
                appended(old(self)@.log, final(self)@.log),
                command_bytes(command@, old(self)@.opts.terminator@),
            ),
            reconnects_follow_timeouts(appended(old(self)@.log, final(self)@.log)),
            leaves_timeout(appended(old(self)@.log, final(self)@.log), io_timeout(old(self)@.opts)),
            r matches Ok(s) ==> reply_of(appended(old(self)@.log, final(self)@.log), old(self)@.opts.terminator@)
                == Some(s@),
            r is Ok ==> write_count(appended(old(self)@.log, final(self)@.log)) > 0,
            write_count(appended(old(self)@.log, final(self)@.log)) <= write_attempts(
                true,
                old(self)@.opts.retries,
            ) * write_attempts(true, old(self)@.opts.retries),
            write_count(appended(old(self)@.log, final(self)@.log)) >= 1,
            r is Ok <==> delivered(
                appended(old(self)@.log, final(self)@.log),
                timeout,
                old(self)@.opts.terminator@,
            ),
            r matches Err(Error::Timeout) ==> write_count(appended(old(self)@.log, final(self)@.log))
                >= write_attempts(true, old(self)@.opts.retries),
            !old(self)@.opts.reconnect_on_failure ==> no_reconnects(appended(old(self)@.log, final(self)@.log)),
            r matches Err(e) && !(e matches Error::Timeout) ==> failed_hard(appended(old(self)@.log, final(self)@.log)),
            one_send(appended(old(self)@.log, final(self)@.log)),
    {
        let ghost start = self.log@;
        let ghost sent = command_bytes(command@, self.opts.terminator@);
        proof {
            assert(start.take(start.len() as int) =~= start);
            assert(appended(start, start) =~= Seq::<LinkEvent>::empty());
        }
        let max_attempts = max_write_attempts(true, self.opts.retries);
        let mut attempts: u32 = 0;
        loop
            invariant
                self@.opts == old(self)@.opts,
                self@.capabilities == old(self)@.capabilities,
                self.reports_to() == old(self).reports_to(),
                start == old(self).log@,
                sent == command_bytes(command@, self.opts.terminator@),
                attempts < max_attempts,
                max_attempts == write_attempts(true, self.opts.retries),
                write_count(appended(start, self.log@)) <= attempts * max_attempts,
                extends(start, self.log@),
                writes_only(appended(start, self.log@), sent),
                reconnects_follow_timeouts(appended(start, self.log@)),
                leaves_timeout(appended(start, self.log@), io_timeout(self.opts)),
                attempts > 0 ==> write_count(appended(start, self.log@)) >= 1,
                write_count(appended(start, self.log@)) >= attempts,
                !self.opts.reconnect_on_failure ==> no_reconnects(appended(start, self.log@)),
                writes_after_pauses(appended(start, self.log@)),
                attempts > 0 ==> appended(start, self.log@).len() > 0 && appended(start, self.log@).last() is Pause
                    && appended(start, self.log@)[0] is Write,
                attempts == 0 ==> appended(start, self.log@).len() == 0,
            decreases max_attempts - attempts,
        {
            attempts = attempts + 1;
            let ghost before = self.log@;
            let w = self.write_with_retry(command, true);
            proof {
                lemma_chain(start, before, self.log@);
                let prev = write_count(appended(start, before));
                let added = write_count(appended(before, self.log@));
                assert(prev + added <= attempts * max_attempts) by (nonlinear_arith)
                    requires
                        prev <= (attempts - 1) * max_attempts,
                        added <= max_attempts,
                        attempts >= 1,
                ;
                assert(attempts * max_attempts <= max_attempts * max_attempts) by (nonlinear_arith)
                    requires
                        attempts <= max_attempts,
                ;
            }
            proof {
                lemma_writes_after_pauses_concat(appended(start, before), appended(before, self.log@));
                if appended(start, before).len() == 0 {
                    assert(appended(start, self.log@) =~= appended(before, self.log@));
                } else {
                    assert(appended(start, self.log@)[0] == appended(start, before)[0]);
                }
                lemma_write_count_concat(appended(start, before), appended(before, self.log@));
                let ws = appended(before, self.log@);
                lemma_since_last_write_concat(appended(start, before), ws);
                assert(ws.drop_last().push(ws.last()) =~= ws);
                lemma_push(ws.drop_last(), ws.last());
                assert(since_last_write(ws) =~= Seq::<LinkEvent>::empty());
            }
            if let Err(e) = w {
                return Err(e);
            }
            let ghost written = self.log@;
            let rr = self.read_response(timeout);
            proof {
                lemma_quiet_after(appended(start, written), appended(written, self.log@));
                lemma_no_writes(appended(written, self.log@));
                lemma_chain(start, written, self.log@);
                lemma_chain(before, written, self.log@);
                lemma_write_count_concat(appended(start, before), appended(before, written));
            }
            let event = match &rr {
                Ok(_) => ReplyEvent::Framed,
                Err(Error::Timeout) => ReplyEvent::TimedOut,
                Err(_) => ReplyEvent::Failed,
            };
            match after_reply(event, attempts, max_attempts) {
                QueryAction::Deliver => {
                    let bytes = match rr {
                        Ok(bytes) => bytes,
                        Err(_) => Vec::new(),
                    };
                    let text = utf8_lossy(bytes.as_slice());
                    let reply = trim_str(text.as_str());
                    proof {
                        let ws = appended(start, written);
                        let rs = appended(written, self.log@);
                        lemma_since_last_write_concat(ws, rs);
                        assert(ws.last() is Write);
                        assert(ws.drop_last().push(ws.last()) =~= ws);
                        lemma_push(ws.drop_last(), ws.last());
                        assert(since_last_write(ws) =~= Seq::<LinkEvent>::empty());
                        assert(Seq::<LinkEvent>::empty() + rs =~= rs);
                    }
                    return Ok(reply);
                },
                QueryAction::FlushAndRetry => {
                    let ghost before_flush = self.log@;
                    let _ = self.flush();
                    proof {
                        lemma_no_writes(appended(before_flush, self.log@));
                        lemma_chain(start, before_flush, self.log@);
                        lemma_quiet_after(appended(start, before_flush), appended(before_flush, self.log@));
                    }
                    let delay = query_backoff(self.opts.retry_backoff, attempts);
                    let ghost before_pause = self.log@;
                    self.link_pause(delay);
                    proof {
                        lemma_extends_push(start, before_pause, self.log@.last());
                        lemma_push(appended(start, before_pause), self.log@.last());
                        assert(writes_only(appended(start, before_pause), sent));
                    }
                },
                QueryAction::FlushAndTimeOut => {
                    let ghost before_flush = self.log@;
                    let _ = self.flush();
                    proof {
                        lemma_no_writes(appended(before_flush, self.log@));
                        lemma_chain(start, before_flush, self.log@);
                        lemma_quiet_after(appended(start, before_flush), appended(before_flush, self.log@));
                        lemma_chain(written, before_flush, self.log@);
                        let ws = appended(start, written);
                        let rs = appended(written, before_flush);
                        let fs = appended(before_flush, self.log@);
                        lemma_write_count_concat(rs, fs);
                        lemma_chain(start, written, self.log@);
                        lemma_since_last_write_concat(ws, rs + fs);
                        assert(ws.last() is Write);
                        assert(ws.drop_last().push(ws.last()) =~= ws);
                        lemma_push(ws.drop_last(), ws.last());
                        assert(since_last_write(ws) =~= Seq::<LinkEvent>::empty());
                        let sw = rs + fs;
                        assert(Seq::<LinkEvent>::empty() + sw =~= sw);
                        assert(sw[0] == rs[0]);
                        if rs[0]->SetTimeout_ok {
                            let k = rs.len() - 1;
                            assert(sw[k] == rs.last());
                            assert(!(sw.subrange(1, sw.len() - 1)[k - 1] is Read));
                        }
                    }
                    return Err(Error::Timeout);
                },
                QueryAction::Fail => {
                    proof {
                        let ws = appended(start, written);
                        let rs = appended(written, self.log@);
                        lemma_since_last_write_concat(ws, rs);
                        assert(ws.last() is Write);
                        assert(ws.drop_last().push(ws.last()) =~= ws);
                        lemma_push(ws.drop_last(), ws.last());
                        assert(since_last_write(ws) =~= Seq::<LinkEvent>::empty());
                        assert(Seq::<LinkEvent>::empty() + rs =~= rs);
                        if rr is Err && !(rr matches Err(Error::Timeout)) {
                            lemma_failed_hard_within(ws, rs, Seq::<LinkEvent>::empty());
                            assert(ws + rs + Seq::<LinkEvent>::empty() =~= appended(start, self.log@));
                        }
                    }
                    let e = match rr {
                        Err(e) => e,
                        Ok(_) => Error::Timeout,
                    };
                    return Err(e);
                },
            }
        }
    }

    /// Sends a query under the query read timeout and returns the response string.
    pub fn query(&mut self, command: &str) -> (r: Result<String>)
        ensures
            final(self).reports_to() == old(self).reports_to(),
            final(self)@.opts == old(self)@.opts,
            final(self)@.capabilities == old(self)@.capabilities,
            extends(old(self)@.log, final(self)@.log),
            writes_only(
                appended(old(self)@.log, final(self)@.log),
                command_bytes(command@, old(self)@.opts.terminator@),
            ),
            reconnects_follow_timeouts(appended(old(self)@.log, final(self)@.log)),
            leaves_timeout(appended(old(self)@.log, final(self)@.log), io_timeout(old(self)@.opts)),
            r matches Ok(s) ==> reply_of(appended(old(self)@.log, final(self)@.log), old(self)@.opts.terminator@)
                == Some(s@),
            r is Ok ==> write_count(appended(old(self)@.log, final(self)@.log)) > 0,
            write_count(appended(old(self)@.log, final(self)@.log)) <= write_attempts(
                true,
                old(self)@.opts.retries,
            ) * write_attempts(true, old(self)@.opts.retries),
            write_count(appended(old(self)@.log, final(self)@.log)) >= 1,
            r is Ok <==> delivered(
                appended(old(self)@.log, final(self)@.log),
                effective_read_timeout(old(self)@.opts),
                old(self)@.opts.terminator@,
            ),
            r matches Err(Error::Timeout) ==> write_count(appended(old(self)@.log, final(self)@.log))
                >= write_attempts(true, old(self)@.opts.retries),
            !old(self)@.opts.reconnect_on_failure ==> no_reconnects(appended(old(self)@.log, final(self)@.log)),
            r matches Err(e) && !(e matches Error::Timeout) ==> failed_hard(appended(old(self)@.log, final(self)@.log)),
            one_send(appended(old(self)@.log, final(self)@.log)),
    {
        let timeout = self.opts.effective_read_timeout();
        self.query_with_timeout(command, timeout)
    }

    /// Probes and caches whether `SYST:ERR?` is supported: the instrument answers it
    /// with an error-queue entry.
    pub fn probe_syst_err(&mut self) -> (r: bool)
        ensures
            final(self).reports_to() == old(self).reports_to(),
            final(self)@.opts == old(self)@.opts,
            extends(old(self)@.log, final(self)@.log),
            reconnects_follow_timeouts(appended(old(self)@.log, final(self)@.log)),
            leaves_timeout(appended(old(self)@.log, final(self)@.log), io_timeout(old(self)@.opts)),
            old(self)@.capabilities.syst_err matches Some(v) ==> r == v && final(self)@ == old(self)@,
            old(self)@.capabilities.syst_err is None ==> {
                &&& final(self)@.capabilities == (SessionCapabilities {
                    syst_err: Some(r),
                    ..old(self)@.capabilities
                })
                &&& writes_only(
                    appended(old(self)@.log, final(self)@.log),
                    command_bytes("SYST:ERR?"@, old(self)@.opts.terminator@),
                )
                &&& write_count(appended(old(self)@.log, final(self)@.log)) >= 1
                &&& one_send(appended(old(self)@.log, final(self)@.log))
                &&& r <==> (delivered(
                    appended(old(self)@.log, final(self)@.log),
                    millis_duration(500),
                    old(self)@.opts.terminator@,
                ) && match reply_of(appended(old(self)@.log, final(self)@.log), old(self)@.opts.terminator@) {
                    Some(reply) => syst_err_supported_reply(reply),
                    None => false,
                })
            },
    {
        if let Some(v) = self.capabilities.syst_err {
            proof {
                assert(self.log@.take(self.log@.len() as int) =~= self.log@);
                assert(appended(self.log@, self.log@) =~= Seq::<LinkEvent>::empty());
            }
            return v;
        }
        let supported = match self.query_with_timeout("SYST:ERR?", duration_from_millis(500)) {
            Ok(reply) => is_syst_err_supported_reply(reply.as_str()),
            Err(_) => false,
        };
        self.capabilities.syst_err = Some(supported);
        supported
    }

    /// Probes and caches whether `*OPC?` is supported: the instrument answers it with
    /// `1`.
    pub fn probe_opc(&mut self) -> (r: bool)
        ensures
            final(self).reports_to() == old(self).reports_to(),
            final(self)@.opts == old(self)@.opts,
            extends(old(self)@.log, final(self)@.log),
            reconnects_follow_timeouts(appended(old(self)@.log, final(self)@.log)),
            leaves_timeout(appended(old(self)@.log, final(self)@.log), io_timeout(old(self)@.opts)),
            old(self)@.capabilities.opc matches Some(v) ==> r == v && final(self)@ == old(self)@,
            old(self)@.capabilities.opc is None ==> {
                &&& final(self)@.capabilities == (SessionCapabilities {
                    opc: Some(r),
                    ..old(self)@.capabilities
                })
                &&& writes_only(
                    appended(old(self)@.log, final(self)@.log),
                    command_bytes("*OPC?"@, old(self)@.opts.terminator@),
                )
                &&& write_count(appended(old(self)@.log, final(self)@.log)) >= 1
                &&& one_send(appended(old(self)@.log, final(self)@.log))
                &&& r <==> (delivered(
                    appended(old(self)@.log, final(self)@.log),
                    millis_duration(500),
                    old(self)@.opts.terminator@,
                ) && match reply_of(appended(old(self)@.log, final(self)@.log), old(self)@.opts.terminator@) {
                    Some(reply) => opc_supported_reply(reply),
                    None => false,
                })
            },
    {
        if let Some(v) = self.capabilities.opc {
            proof {
                assert(self.log@.take(self.log@.len() as int) =~= self.log@);
                assert(appended(self.log@, self.log@) =~= Seq::<LinkEvent>::empty());
            }
            return v;
        }
        let supported = match self.query_with_timeout("*OPC?", duration_from_millis(500)) {
            Ok(reply) => is_opc_supported_reply(reply.as_str()),
            Err(_) => false,
        };
        self.capabilities.opc = Some(supported);
        supported
    }

    /// Waits for pending operations with `*OPC?` (for up to 30 s) when the instrument
    /// supports it.
    pub(crate) fn wait_complete(&mut self) -> (r: Result<()>)
        ensures
            final(self).reports_to() == old(self).reports_to(),
            final(self)@.opts == old(self)@.opts,
            extends(old(self)@.log, final(self)@.log),
            reconnects_follow_timeouts(appended(old(self)@.log, final(self)@.log)),
            leaves_timeout(appended(old(self)@.log, final(self)@.log), io_timeout(old(self)@.opts)),
            final(self)@.capabilities.opc is Some,
            final(self)@.capabilities.syst_err == old(self)@.capabilities.syst_err,
            final(self)@.capabilities.opc == Some(false) ==> r is Ok,
            old(self)@.capabilities.opc == Some(false) ==> final(self)@ == old(self)@,
            final(self)@.capabilities.opc == Some(true) ==> write_count(
                appended(old(self)@.log, final(self)@.log),
            ) >= 1,
            writes_only(
                appended(old(self)@.log, final(self)@.log),
                command_bytes("*OPC?"@, old(self)@.opts.terminator@),
            ),
            final(self)@.capabilities.opc == Some(true) ==> (r is Ok <==> delivered(
                appended(old(self)@.log, final(self)@.log),
                secs_duration(30),
                old(self)@.opts.terminator@,
            )),
    {
        let ghost start = self.log@;
        let supported = self.probe_opc();
        if supported {
            let ghost mid = self.log@;
            let q = self.query_with_timeout("*OPC?", duration_from_secs(30));
            proof {
                lemma_chain(start, mid, self.log@);
                lemma_writes_only_concat(
                    appended(start, mid),
                    appended(mid, self.log@),
                    command_bytes("*OPC?"@, old(self)@.opts.terminator@),
                );
                lemma_delivered_after(
                    appended(start, mid),
                    appended(mid, self.log@),
                    secs_duration(30),
                    old(self)@.opts.terminator@,
                );
                lemma_write_count_concat(appended(start, mid), appended(mid, self.log@));
            }
            if let Err(e) = q {
                return Err(e);
            }
        }
        Ok(())
    }

    /// Drains the instrument error queue when `SYST:ERR?` is supported: the entries
    /// before the first "no error" reply (`0,` or `+0,`), at most 51 of them.
    pub fn check_errors(&mut self) -> (r: Result<Vec<String>>)
        ensures
            final(self).reports_to() == old(self).reports_to(),
            final(self)@.opts == old(self)@.opts,
            extends(old(self)@.log, final(self)@.log),
            reconnects_follow_timeouts(appended(old(self)@.log, final(self)@.log)),
            leaves_timeout(appended(old(self)@.log, final(self)@.log), io_timeout(old(self)@.opts)),
            final(self)@.capabilities.syst_err is Some,
            final(self)@.capabilities.syst_err == Some(false) ==> (r matches Ok(v) && v@.len() == 0),
            r matches Ok(v) ==> v@.len() <= 51 && forall|i: int|
                0 <= i < v@.len() ==> !is_no_error_reply(#[trigger] v@[i]@),
            writes_only(
                appended(old(self)@.log, final(self)@.log),
                command_bytes("SYST:ERR?"@, old(self)@.opts.terminator@),
            ),
            exists|pre: Seq<LinkEvent>, segs: Seq<Seq<LinkEvent>>, entries: Seq<Seq<char>>|
                #[trigger] error_queue_read(
                    pre,
                    segs,
                    entries,
                    appended(old(self)@.log, final(self)@.log),
                    old(self)@.capabilities.syst_err,
                    final(self)@.capabilities.syst_err,
                    effective_read_timeout(old(self)@.opts),
                    old(self)@.opts.terminator@,
                    r,
                ),
    {
        let ghost start = self.log@;
        let ghost known = self.capabilities.syst_err;
        let ghost term = self.opts.terminator@;
        let ghost timeout = effective_read_timeout(self.opts);
        let ghost sent = command_bytes("SYST:ERR?"@, old(self)@.opts.terminator@);
        let supported = self.probe_syst_err();
        let ghost probed = self.log@;
        let ghost pre = appended(start, probed);
        if !supported {
            let none: Vec<String> = Vec::new();
            proof {
                let segs = Seq::<Seq<LinkEvent>>::empty();
                assert(pre + segs.flatten() =~= pre);
                assert(texts_of(none@) =~= Seq::<Seq<char>>::empty());
                assert(error_queue_read(
                    pre,
                    segs,
                    Seq::<Seq<char>>::empty(),
                    appended(start, self.log@),
                    known,
                    Some(false),
                    timeout,
                    term,
                    Ok(none),
                ));
            }
            return Ok(none);
        }
        let (r, found) = self.drain_error_queue();
        proof {
            lemma_chain(start, probed, self.log@);
            assert(error_queue_read(
                pre,
                found@.0,
                found@.1,
                appended(start, self.log@),
                known,
                Some(true),
                timeout,
                term,
                r,
            ));
        }
        r
    }

    /// Reads error-queue entries with `SYST:ERR?` until a "no error" reply, a failed
    /// query, or 51 entries; gives back, as ghosts, each query's events and the
    /// entries read.
    #[verifier::rlimit(60)]
    fn drain_error_queue(&mut self) -> (res: (Result<Vec<String>>, Ghost<(Seq<Seq<LinkEvent>>, Seq<Seq<char>>)>))
        ensures
            final(self).reports_to() == old(self).reports_to(),
            final(self)@.opts == old(self)@.opts,
            final(self)@.capabilities == old(self)@.capabilities,
            extends(old(self)@.log, final(self)@.log),
            reconnects_follow_timeouts(appended(old(self)@.log, final(self)@.log)),
            leaves_timeout(appended(old(self)@.log, final(self)@.log), io_timeout(old(self)@.opts)),
            writes_only(
                appended(old(self)@.log, final(self)@.log),
                command_bytes("SYST:ERR?"@, old(self)@.opts.terminator@),
            ),
            appended(old(self)@.log, final(self)@.log) == res.1@.0.flatten(),
            error_drain(
                res.1@.0,
                res.1@.1,
                effective_read_timeout(old(self)@.opts),
                old(self)@.opts.terminator@,
                res.0 is Ok,
            ),
            res.0 matches Ok(v) ==> texts_of(v@) == res.1@.1 && v@.len() <= 51 && forall|i: int|
                0 <= i < v@.len() ==> !is_no_error_reply(#[trigger] v@[i]@),
    {
        let ghost start = self.log@;
        let ghost term = self.opts.terminator@;
        let ghost timeout = effective_read_timeout(self.opts);
        let ghost sent = command_bytes("SYST:ERR?"@, self.opts.terminator@);
        let mut errors: Vec<String> = Vec::new();
        let mut failure: Option<Error> = None;
        let ghost mut segs: Seq<Seq<LinkEvent>> = Seq::empty();
        proof {
            reveal(drain_prefix);
            assert(start.take(start.len() as int) =~= start);
            assert(segs.flatten() =~= appended(start, start));
            assert(texts_of(errors@) =~= Seq::<Seq<char>>::empty());
        }
        loop
            invariant_except_break
                errors@.len() <= 50,
                segs.len() == errors@.len(),
                failure is None,
            invariant
                start == old(self)@.log,
                term == old(self)@.opts.terminator@,
                timeout == effective_read_timeout(old(self)@.opts),
                self@.opts == old(self)@.opts,
                self@.capabilities == old(self)@.capabilities,
                self.reports_to() == old(self).reports_to(),
                extends(start, self.log@),
                reconnects_follow_timeouts(appended(start, self.log@)),
                leaves_timeout(appended(start, self.log@), io_timeout(self@.opts)),
                errors@.len() <= 51,
                forall|i: int| 0 <= i < errors@.len() ==> !is_no_error_reply(#[trigger] errors@[i]@),
                sent == command_bytes("SYST:ERR?"@, self@.opts.terminator@),
                writes_only(appended(start, self.log@), sent),
                appended(start, self.log@) == segs.flatten(),
                drain_prefix(segs, texts_of(errors@), timeout, term),
            ensures
                error_drain(segs, texts_of(errors@), timeout, term, failure is None),
            decreases 51 - errors@.len(),
        {
            let ghost before = self.log@;
            let q = self.query("SYST:ERR?");
            let ghost seg = appended(before, self.log@);
            let ghost prev = segs;
            proof {
                lemma_chain(start, before, self.log@);
                lemma_writes_only_concat(appended(start, before), seg, sent);
                prev.lemma_flatten_push(seg);
                lemma_drain_push_query(prev, texts_of(errors@), seg, timeout, term);
                segs = prev.push(seg);
                assert(texts_of(errors@).len() == errors@.len());
            }
            match q {
                Err(e) => {
                    failure = Some(e);
                    break ;
                },
                Ok(reply) => {
                    let ghost text = reply@;
                    if reports_no_error(reply.as_str()) {
                        break ;
                    }
                    let ghost old_errors = errors@;
                    errors.push(reply);
                    proof {
                        lemma_drain_push_entry(segs, texts_of(old_errors), text, timeout, term);
                        assert(texts_of(errors@) =~= texts_of(old_errors).push(text));
                    }
                    if errors.len() > 50 {
                        break ;
                    }
                },
            }
        }
        let ghost entries = texts_of(errors@);
        match failure {
            Some(e) => (Err(e), Ghost((segs, entries))),
            None => (Ok(errors), Ghost((segs, entries))),
        }
    }
}

} // verus!
