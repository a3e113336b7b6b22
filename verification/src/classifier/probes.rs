//! Capability probes: read-only state queries per instrument kind, and the
//! acquisition queries that only deep probing sends.
use crate::connect::io_timeout;
use crate::ieee4882::session_step;
use crate::scpi::session::{
    appended, command_bytes, delivered, extends, lemma_chain, reply_of, write_count, writes_only,
    LinkEvent, ScpiSession,
};
use crate::timing::{duration_from_millis, millis_duration};
use std::time::Duration;
use vstd::prelude::*;

verus! {

/// The read timeout of each probe query: 800 ms.
pub fn probe_timeout() -> (r: Duration)
    ensures
        r == millis_duration(800),
{
    duration_from_millis(800)
}

pub open spec fn dmm_readonly_spec() -> Seq<Seq<char>> {
    seq![":SENS:FUNC?"@, "SENS:FUNC?"@, ":FUNC?"@, "FUNC?"@]
}

pub open spec fn psu_readonly_spec() -> Seq<Seq<char>> {
    seq![":OUTP? 1"@, "OUTP? 1"@, ":OUTP?"@, "OUTP?"@]
}

pub open spec fn fgen_readonly_spec() -> Seq<Seq<char>> {
    seq![":SOUR:FUNC?"@, "SOUR:FUNC?"@]
}

pub open spec fn scope_readonly_spec() -> Seq<Seq<char>> {
    seq![
        ":TIMebase:SCALe?"@,
        "TIMebase:SCALe?"@,
        ":CHAN1:SCALe?"@,
        "CHAN1:SCALe?"@,
        ":WAVeform:SOURce?"@,
        "WAVeform:SOURce?"@,
    ]
}

pub open spec fn switch_readonly_spec() -> Seq<Seq<char>> {
    seq![":ROUTe:CLOS?"@, "ROUT:CLOS?"@, ":ROUTe:CAT?"@, "ROUT:CAT?"@]
}

pub open spec fn counter_readonly_spec() -> Seq<Seq<char>> {
    seq![":COUNter:DATA?"@, "COUN:DATA?"@, ":COUNter:A:DATA?"@, "COUN:A:DATA?"@]
}

pub open spec fn dmm_acquisition_spec() -> Seq<Seq<char>> {
    seq![":MEAS:VOLT:DC?"@, "MEAS:VOLT:DC?"@]
}

/// The texts of a list of commands.
pub open spec fn texts(commands: Seq<&str>) -> Seq<Seq<char>> {
    commands.map_values(|c: &str| c@)
}

/// Read-only probes of a multimeter.
pub fn dmm_readonly_commands() -> (r: Vec<&'static str>)
    ensures
        texts(r@) == dmm_readonly_spec(),
{
    let r = vec![":SENS:FUNC?", "SENS:FUNC?", ":FUNC?", "FUNC?"];
    assert(texts(r@) =~= dmm_readonly_spec());
    r
}

/// Read-only probes of a DC power supply.
pub fn psu_readonly_commands() -> (r: Vec<&'static str>)
    ensures
        texts(r@) == psu_readonly_spec(),
{
    let r = vec![":OUTP? 1", "OUTP? 1", ":OUTP?", "OUTP?"];
    assert(texts(r@) =~= psu_readonly_spec());
    r
}

/// Read-only probes of a function generator.
pub fn fgen_readonly_commands() -> (r: Vec<&'static str>)
    ensures
        texts(r@) == fgen_readonly_spec(),
{
    let r = vec![":SOUR:FUNC?", "SOUR:FUNC?"];
    assert(texts(r@) =~= fgen_readonly_spec());
    r
}

/// Read-only probes of an oscilloscope.
pub fn scope_readonly_commands() -> (r: Vec<&'static str>)
    ensures
        texts(r@) == scope_readonly_spec(),
{
    let r = vec![
        ":TIMebase:SCALe?",
        "TIMebase:SCALe?",
        ":CHAN1:SCALe?",
        "CHAN1:SCALe?",
        ":WAVeform:SOURce?",
        "WAVeform:SOURce?",
    ];
    assert(texts(r@) =~= scope_readonly_spec());
    r
}

/// Read-only probes of a switch matrix.
pub fn switch_readonly_commands() -> (r: Vec<&'static str>)
    ensures
        texts(r@) == switch_readonly_spec(),
{
    let r = vec![":ROUTe:CLOS?", "ROUT:CLOS?", ":ROUTe:CAT?", "ROUT:CAT?"];
    assert(texts(r@) =~= switch_readonly_spec());
    r
}

/// Read-only probes of a frequency counter.
pub fn counter_readonly_commands() -> (r: Vec<&'static str>)
    ensures
        texts(r@) == counter_readonly_spec(),
{
    let r = vec![":COUNter:DATA?", "COUN:DATA?", ":COUNter:A:DATA?", "COUN:A:DATA?"];
    assert(texts(r@) =~= counter_readonly_spec());
    r
}

/// Probes that make a multimeter take a measurement.
pub fn dmm_acquisition_commands() -> (r: Vec<&'static str>)
    ensures
        texts(r@) == dmm_acquisition_spec(),
{
    let r = vec![":MEAS:VOLT:DC?", "MEAS:VOLT:DC?"];
    assert(texts(r@) =~= dmm_acquisition_spec());
    r
}

/// Every write in `events` sends one of `commands`.
pub open spec fn writes_among(
    events: Seq<LinkEvent>,
    commands: Seq<Seq<char>>,
    terminator: Seq<char>,
) -> bool {
    forall|i: int|
        0 <= i < events.len() && #[trigger] events[i] is Write ==> exists|j: int|
            0 <= j < commands.len() && events[i]->Write_data == #[trigger] command_bytes(
                commands[j],
                terminator,
            )
}

pub proof fn lemma_writes_among_concat(
    a: Seq<LinkEvent>,
    b: Seq<LinkEvent>,
    commands: Seq<Seq<char>>,
    terminator: Seq<char>,
)
    requires
        writes_among(a, commands, terminator),
        writes_among(b, commands, terminator),
    ensures
        writes_among(a + b, commands, terminator),
{
    let c = a + b;
    assert forall|i: int| 0 <= i < c.len() && #[trigger] c[i] is Write implies exists|j: int|
        0 <= j < commands.len() && c[i]->Write_data == #[trigger] command_bytes(
            commands[j],
            terminator,
        ) by {
        if i < a.len() {
            assert(c[i] == a[i]);
        } else {
            assert(c[i] == b[i - a.len()]);
        }
    }
}

/// A list of commands stays allowed among a longer list that holds it.
pub proof fn lemma_writes_among_widen(
    events: Seq<LinkEvent>,
    commands: Seq<Seq<char>>,
    wider: Seq<Seq<char>>,
    terminator: Seq<char>,
)
    requires
        writes_among(events, commands, terminator),
        forall|j: int| 0 <= j < commands.len() ==> #[trigger] wider.contains(commands[j]),
    ensures
        writes_among(events, wider, terminator),
{
    assert forall|i: int| 0 <= i < events.len() && #[trigger] events[i] is Write implies exists|
        k: int,
    |
        0 <= k < wider.len() && events[i]->Write_data == #[trigger] command_bytes(
            wider[k],
            terminator,
        ) by {
        let j = choose|j: int|
            0 <= j < commands.len() && events[i]->Write_data == #[trigger] command_bytes(
                commands[j],
                terminator,
            );
        assert(wider.contains(commands[j]));
        let k = choose|k: int| 0 <= k < wider.len() && wider[k] == commands[j];
        assert(command_bytes(wider[k], terminator) == command_bytes(commands[j], terminator));
    }
}

/// `seg` queried `command`: it wrote that command, and nothing else, at least once.
pub open spec fn query_of(seg: Seq<LinkEvent>, command: Seq<char>, terminator: Seq<char>) -> bool {
    write_count(seg) >= 1 && writes_only(seg, command_bytes(command, terminator))
}

/// `events` are the queries of an any-of probe: `commands` queried one after another in
/// order, each under `timeout`, every one before the last unanswered; the probe
/// succeeded (`found`) exactly when the last was answered, and queried every command
/// when it did not.
pub open spec fn probe_run(
    events: Seq<LinkEvent>,
    commands: Seq<Seq<char>>,
    timeout: Duration,
    terminator: Seq<char>,
    found: bool,
) -> bool {
    exists|segs: Seq<Seq<LinkEvent>>|
        #[trigger] segs.flatten() == events && probe_segments(segs, commands, timeout, terminator, found)
}

/// The queries of an any-of probe, one segment per command queried.
pub open spec fn probe_segments(
    segs: Seq<Seq<LinkEvent>>,
    commands: Seq<Seq<char>>,
    timeout: Duration,
    terminator: Seq<char>,
    found: bool,
) -> bool {
    &&& segs.len() <= commands.len()
    &&& forall|k: int| 0 <= k < segs.len() ==> query_of(#[trigger] segs[k], commands[k], terminator)
    &&& forall|k: int| 0 <= k < segs.len() - 1 ==> !delivered(#[trigger] segs[k], timeout, terminator)
    &&& found <==> (segs.len() > 0 && delivered(segs.last(), timeout, terminator))
    &&& !found ==> segs.len() == commands.len()
}

/// Returns true when any probe command answers: each is queried in turn, under
/// `timeout`, until one succeeds.
pub fn probe_any(session: &mut ScpiSession, commands: &[&str], timeout: Duration) -> (r: bool)
    ensures
        session_step(*old(session), *final(session)),
        final(session)@.capabilities == old(session)@.capabilities,
        writes_among(
            appended(old(session)@.log, final(session)@.log),
            texts(commands@),
            old(session)@.opts.terminator@,
        ),
        r ==> reply_of(appended(old(session)@.log, final(session)@.log), old(session)@.opts.terminator@)
            is Some,
        probe_run(
            appended(old(session)@.log, final(session)@.log),
            texts(commands@),
            timeout,
            old(session)@.opts.terminator@,
            r,
        ),
{
    let ghost start = session@.log;
    let ghost term = session@.opts.terminator@;
    proof {
        assert(start.take(start.len() as int) =~= start);
        assert(appended(start, start) =~= Seq::<LinkEvent>::empty());
    }
    let ghost mut segs: Seq<Seq<LinkEvent>> = Seq::empty();
    proof {
        assert(segs.flatten() =~= appended(start, start));
    }
    let mut i: usize = 0;
    while i < commands.len()
        invariant
            i <= commands@.len(),
            start == old(session)@.log,
            term == old(session)@.opts.terminator@,
            session_step(*old(session), *session),
            session@.capabilities == old(session)@.capabilities,
            writes_among(appended(start, session@.log), texts(commands@), term),
            segs.flatten() == appended(start, session@.log),
            segs.len() == i,
            forall|k: int| 0 <= k < segs.len() ==> query_of(#[trigger] segs[k], texts(commands@)[k], term),
            forall|k: int| 0 <= k < segs.len() ==> !delivered(#[trigger] segs[k], timeout, term),
        decreases commands@.len() - i,
    {
        let ghost before = session@.log;
        let ok = session.query_with_timeout(commands[i], timeout).is_ok();
        proof {
            lemma_chain(start, before, session@.log);
            let seg = appended(before, session@.log);
            let next = segs.push(seg);
            segs.lemma_flatten_push(seg);
            assert(texts(commands@)[i as int] == commands@[i as int]@);
            assert(next.last() == seg);
            assert forall|k: int| 0 <= k < next.len() implies query_of(
                #[trigger] next[k],
                texts(commands@)[k],
                term,
            ) by {
                if k < segs.len() {
                    assert(next[k] == segs[k]);
                }
            }
            assert forall|k: int| 0 <= k < next.len() - 1 implies !delivered(#[trigger] next[k], timeout, term) by {
                assert(next[k] == segs[k]);
            }
            if !ok {
                assert forall|k: int| 0 <= k < next.len() implies !delivered(#[trigger] next[k], timeout, term) by {
                    if k < segs.len() {
                        assert(next[k] == segs[k]);
                    }
                }
            }
            if ok {
                assert(probe_segments(next, texts(commands@), timeout, term, true));
            }
            segs = next;
            let seg = appended(before, session@.log);
            assert forall|k: int| 0 <= k < seg.len() && #[trigger] seg[k] is Write implies exists|
                j: int,
            |
                0 <= j < texts(commands@).len() && seg[k]->Write_data == #[trigger] command_bytes(
                    texts(commands@)[j],
                    term,
                ) by {
                assert(texts(commands@)[i as int] == commands@[i as int]@);
            }
            lemma_writes_among_concat(appended(start, before), seg, texts(commands@), term);
        }
        if ok {
            proof {
                crate::scpi::session::lemma_reply_after(
                    appended(start, before),
                    appended(before, session@.log),
                    term,
                );
            }
            return true;
        }
        i = i + 1;
    }
    proof {
        assert(probe_segments(segs, texts(commands@), timeout, term, false));
    }
    false
}

} // verus!
