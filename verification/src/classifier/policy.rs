//! Capability probing (classification layer 5) under a probe policy.
use super::merge::{ClassifiedKind, ClassifySource};
use super::probes::{
    counter_readonly_commands, counter_readonly_spec, dmm_acquisition_commands,
    dmm_acquisition_spec, dmm_readonly_commands, dmm_readonly_spec, fgen_readonly_commands,
    fgen_readonly_spec, lemma_writes_among_concat, lemma_writes_among_widen, probe_any,
    probe_run, probe_timeout, psu_readonly_commands, psu_readonly_spec, scope_readonly_commands,
    scope_readonly_spec, switch_readonly_commands, switch_readonly_spec, texts, writes_among,
};
use crate::timing::millis_duration;
use std::time::Duration;
use crate::ieee4882::session_step;
use crate::kind::InstrumentKind;
use crate::probe_policy::ProbePolicy;
use crate::scpi::session::{appended, extends, lemma_chain, LinkEvent, ScpiSession};
use vstd::prelude::*;

verus! {

/// The kinds that read-only probing looks for, in probing order, with the confidence
/// of a positive probe.
pub open spec fn readonly_kinds() -> Seq<(InstrumentKind, u8)> {
    seq![
        (InstrumentKind::Dmm, 80u8),
        (InstrumentKind::DcPowerSupply, 85u8),
        (InstrumentKind::FunctionGenerator, 85u8),
        (InstrumentKind::Oscilloscope, 85u8),
        (InstrumentKind::Switch, 85u8),
        (InstrumentKind::Counter, 85u8),
    ]
}

/// The kinds that deep probing looks for: the read-only ones, then a multimeter
/// found by taking a measurement.
pub open spec fn full_kinds() -> Seq<(InstrumentKind, u8)> {
    readonly_kinds().push((InstrumentKind::Dmm, 90u8))
}

/// Every read-only probe command.
pub open spec fn readonly_commands() -> Seq<Seq<char>> {
    dmm_readonly_spec() + psu_readonly_spec() + fgen_readonly_spec() + scope_readonly_spec()
        + switch_readonly_spec() + counter_readonly_spec()
}

/// Every probe command of deep probing.
pub open spec fn full_commands() -> Seq<Seq<char>> {
    readonly_commands() + dmm_acquisition_spec()
}

/// The entries that probing reports: one for each probe of `table` that `found` marks.
pub open spec fn findings(table: Seq<(InstrumentKind, u8)>, found: Seq<bool>) -> Seq<ClassifiedKind>
    decreases found.len(),
{
    if found.len() == 0 {
        Seq::empty()
    } else {
        let rest = findings(table, found.drop_last());
        if found.last() {
            let (kind, confidence) = table[found.len() - 1];
            rest.push(ClassifiedKind { kind, confidence, source: ClassifySource::CapabilityProbe })
        } else {
            rest
        }
    }
}

/// The command groups of read-only probing, in probing order: one per kind of
/// `readonly_kinds`.
pub open spec fn readonly_groups() -> Seq<Seq<Seq<char>>> {
    seq![
        dmm_readonly_spec(),
        psu_readonly_spec(),
        fgen_readonly_spec(),
        scope_readonly_spec(),
        switch_readonly_spec(),
        counter_readonly_spec(),
    ]
}

/// The command groups of deep probing: the read-only ones, then the acquisition probe.
pub open spec fn full_groups() -> Seq<Seq<Seq<char>>> {
    readonly_groups().push(dmm_acquisition_spec())
}

/// `runs` are the any-of probes of `groups`, one after another in order, making up
/// `events`; `found` marks the groups that answered.
pub open spec fn probe_table_run(
    runs: Seq<Seq<LinkEvent>>,
    found: Seq<bool>,
    events: Seq<LinkEvent>,
    groups: Seq<Seq<Seq<char>>>,
    timeout: Duration,
    terminator: Seq<char>,
) -> bool {
    &&& runs.len() == groups.len()
    &&& found.len() == groups.len()
    &&& runs.flatten() == events
    &&& forall|k: int|
        0 <= k < runs.len() ==> probe_run(#[trigger] runs[k], groups[k], timeout, terminator, found[k])
}

/// `events` probed `groups` in order, each under `timeout`, and `result` holds one
/// entry of `kinds` for each group that answered, in order.
pub open spec fn probed(
    events: Seq<LinkEvent>,
    groups: Seq<Seq<Seq<char>>>,
    kinds: Seq<(InstrumentKind, u8)>,
    timeout: Duration,
    terminator: Seq<char>,
    result: Seq<ClassifiedKind>,
) -> bool {
    exists|runs: Seq<Seq<LinkEvent>>, found: Seq<bool>|
        #[trigger] probe_table_run(runs, found, events, groups, timeout, terminator) && result
            == findings(kinds, found)
}

/// The command groups of `lists`.
pub open spec fn groups_of(lists: Seq<Vec<&'static str>>) -> Seq<Seq<Seq<char>>> {
    lists.map_values(|l: Vec<&'static str>| texts(l@))
}

proof fn lemma_part_contained(part: Seq<Seq<char>>, whole: Seq<Seq<char>>, offset: int)
    requires
        0 <= offset,
        offset + part.len() <= whole.len(),
        whole.subrange(offset, offset + part.len()) == part,
    ensures
        forall|j: int| 0 <= j < part.len() ==> #[trigger] whole.contains(part[j]),
{
    assert forall|j: int| 0 <= j < part.len() implies #[trigger] whole.contains(part[j]) by {
        assert(whole.subrange(offset, offset + part.len())[j] == whole[offset + j]);
        assert(whole[offset + j] == part[j]);
    }
}

fn readonly_lists() -> (r: Vec<Vec<&'static str>>)
    ensures
        r@.len() == 6,
        texts(r@[0]@) == dmm_readonly_spec(),
        texts(r@[1]@) == psu_readonly_spec(),
        texts(r@[2]@) == fgen_readonly_spec(),
        texts(r@[3]@) == scope_readonly_spec(),
        texts(r@[4]@) == switch_readonly_spec(),
        texts(r@[5]@) == counter_readonly_spec(),
{
    vec![
        dmm_readonly_commands(),
        psu_readonly_commands(),
        fgen_readonly_commands(),
        scope_readonly_commands(),
        switch_readonly_commands(),
        counter_readonly_commands(),
    ]
}

proof fn lemma_readonly_lists_allowed(lists: Seq<Vec<&'static str>>, allowed: Seq<Seq<char>>)
    requires
        lists.len() == 6,
        texts(lists[0]@) == dmm_readonly_spec(),
        texts(lists[1]@) == psu_readonly_spec(),
        texts(lists[2]@) == fgen_readonly_spec(),
        texts(lists[3]@) == scope_readonly_spec(),
        texts(lists[4]@) == switch_readonly_spec(),
        texts(lists[5]@) == counter_readonly_spec(),
        allowed.len() >= 24,
        allowed.take(24) == readonly_commands(),
    ensures
        forall|i: int, j: int|
            0 <= i < lists.len() && 0 <= j < lists[i]@.len() ==> #[trigger] allowed.contains(
                texts(lists[i]@)[j],
            ),
{
    let w = readonly_commands();
    assert(w.len() == 24);
    assert(w.subrange(0, 4) =~= dmm_readonly_spec());
    assert(w.subrange(4, 8) =~= psu_readonly_spec());
    assert(w.subrange(8, 10) =~= fgen_readonly_spec());
    assert(w.subrange(10, 16) =~= scope_readonly_spec());
    assert(w.subrange(16, 20) =~= switch_readonly_spec());
    assert(w.subrange(20, 24) =~= counter_readonly_spec());
    assert(allowed.subrange(0, 24) =~= w);
    assert(allowed.subrange(0, 4) =~= w.subrange(0, 4));
    assert(allowed.subrange(4, 8) =~= w.subrange(4, 8));
    assert(allowed.subrange(8, 10) =~= w.subrange(8, 10));
    assert(allowed.subrange(10, 16) =~= w.subrange(10, 16));
    assert(allowed.subrange(16, 20) =~= w.subrange(16, 20));
    assert(allowed.subrange(20, 24) =~= w.subrange(20, 24));
    lemma_part_contained(dmm_readonly_spec(), allowed, 0);
    lemma_part_contained(psu_readonly_spec(), allowed, 4);
    lemma_part_contained(fgen_readonly_spec(), allowed, 8);
    lemma_part_contained(scope_readonly_spec(), allowed, 10);
    lemma_part_contained(switch_readonly_spec(), allowed, 16);
    lemma_part_contained(counter_readonly_spec(), allowed, 20);
    assert forall|i: int, j: int|
        0 <= i < lists.len() && 0 <= j < lists[i]@.len() implies #[trigger] allowed.contains(
        texts(lists[i]@)[j],
    ) by {
        if i == 0 {
            assert(texts(lists[i]@)[j] == dmm_readonly_spec()[j]);
        } else if i == 1 {
            assert(texts(lists[i]@)[j] == psu_readonly_spec()[j]);
        } else if i == 2 {
            assert(texts(lists[i]@)[j] == fgen_readonly_spec()[j]);
        } else if i == 3 {
            assert(texts(lists[i]@)[j] == scope_readonly_spec()[j]);
        } else if i == 4 {
            assert(texts(lists[i]@)[j] == switch_readonly_spec()[j]);
        } else {
            assert(texts(lists[i]@)[j] == counter_readonly_spec()[j]);
        }
    }
}

/// One probe: runs `commands` and records whether one answered.
fn probe_step(
    session: &mut ScpiSession,
    commands: Vec<&'static str>,
    kind: InstrumentKind,
    confidence: u8,
    out: &mut Vec<ClassifiedKind>,
) -> (found: bool)
    ensures
        session_step(*old(session), *final(session)),
        final(session)@.capabilities == old(session)@.capabilities,
        writes_among(
            appended(old(session)@.log, final(session)@.log),
            texts(commands@),
            old(session)@.opts.terminator@,
        ),
        final(out)@ == if found {
            old(out)@.push(
                ClassifiedKind { kind, confidence, source: ClassifySource::CapabilityProbe },
            )
        } else {
            old(out)@
        },
        probe_run(
            appended(old(session)@.log, final(session)@.log),
            texts(commands@),
            millis_duration(800),
            old(session)@.opts.terminator@,
            found,
        ),
{
    let found = probe_any(session, commands.as_slice(), probe_timeout());
    if found {
        out.push(ClassifiedKind { kind, confidence, source: ClassifySource::CapabilityProbe });
    }
    found
}

/// Runs the probes of `table` in order, with the command lists `lists`, appending
/// what answers to `out`.
fn probe_table(
    session: &mut ScpiSession,
    lists: Vec<Vec<&'static str>>,
    table: Vec<(InstrumentKind, u8)>,
    out: &mut Vec<ClassifiedKind>,
    Ghost(allowed): Ghost<Seq<Seq<char>>>,
) -> (res: Ghost<(Seq<bool>, Seq<Seq<LinkEvent>>)>)
    requires
        lists@.len() == table@.len(),
        forall|i: int, j: int|
            0 <= i < lists@.len() && 0 <= j < lists@[i]@.len() ==> #[trigger] allowed.contains(
                texts(lists@[i]@)[j],
            ),
    ensures
        session_step(*old(session), *final(session)),
        final(session)@.capabilities == old(session)@.capabilities,
        writes_among(
            appended(old(session)@.log, final(session)@.log),
            allowed,
            old(session)@.opts.terminator@,
        ),
        res@.0.len() == table@.len(),
        final(out)@ == old(out)@ + findings(table@, res@.0),
        probe_table_run(
            res@.1,
            res@.0,
            appended(old(session)@.log, final(session)@.log),
            groups_of(lists@),
            millis_duration(800),
            old(session)@.opts.terminator@,
        ),
{
    let ghost start = session@.log;
    let ghost term = session@.opts.terminator@;
    let ghost out0 = out@;
    proof {
        assert(start.take(start.len() as int) =~= start);
        assert(appended(start, start) =~= Seq::<LinkEvent>::empty());
        assert(out0 + findings(table@, Seq::<bool>::empty()) =~= out0);
    }
    let ghost mut found: Seq<bool> = Seq::empty();
    let ghost mut runs: Seq<Seq<LinkEvent>> = Seq::empty();
    let ghost all_lists = lists@;
    let ghost groups = groups_of(lists@);
    proof {
        assert(runs.flatten() =~= appended(start, start));
    }
    let mut lists = lists;
    let mut i: usize = 0;
    let n = table.len();
    while i < n
        invariant
            n == table@.len(),
            i <= n,
            all_lists.len() == n,
            lists@ == all_lists.skip(i as int),
            forall|k: int, j: int|
                0 <= k < all_lists.len() && 0 <= j < all_lists[k]@.len() ==> #[trigger] allowed.contains(
                    texts(all_lists[k]@)[j],
                ),
            start == old(session)@.log,
            term == old(session)@.opts.terminator@,
            session_step(*old(session), *session),
            session@.capabilities == old(session)@.capabilities,
            writes_among(appended(start, session@.log), allowed, term),
            found.len() == i,
            out@ == out0 + findings(table@, found),
            groups == groups_of(all_lists),
            runs.len() == i,
            runs.flatten() == appended(start, session@.log),
            forall|k: int|
                0 <= k < runs.len() ==> probe_run(
                    #[trigger] runs[k],
                    groups[k],
                    millis_duration(800),
                    term,
                    found[k],
                ),
        decreases n - i,
    {
        let commands = lists.remove(0);
        let ghost list = commands@;
        proof {
            assert(all_lists.skip(i as int)[0] == all_lists[i as int]);
            assert(lists@ =~= all_lists.skip(i + 1));
        }
        let (kind, confidence) = table[i];
        let ghost before = session@.log;
        let ghost out_before = out@;
        let hit = probe_step(session, commands, kind, confidence, out);
        proof {
            lemma_chain(start, before, session@.log);
            assert forall|j: int| 0 <= j < texts(list).len() implies #[trigger] allowed.contains(
                texts(list)[j],
            ) by {
                assert(all_lists[i as int]@ == list);
            }
            lemma_writes_among_widen(appended(before, session@.log), texts(list), allowed, term);
            lemma_writes_among_concat(
                appended(start, before),
                appended(before, session@.log),
                allowed,
                term,
            );
            let prev = found;
            found = found.push(hit);
            assert(found.drop_last() =~= prev);
            assert(found.last() == hit);
            let seg = appended(before, session@.log);
            let prev_runs = runs;
            runs = runs.push(seg);
            prev_runs.lemma_flatten_push(seg);
            assert(groups[i as int] == texts(list));
            assert forall|k: int| 0 <= k < runs.len() implies probe_run(
                #[trigger] runs[k],
                groups[k],
                millis_duration(800),
                term,
                found[k],
            ) by {
                if k < prev_runs.len() {
                    assert(runs[k] == prev_runs[k]);
                    assert(found[k] == prev[k]);
                }
            }
            assert(table@[i as int] == (kind, confidence));
            assert(found.len() - 1 == i);
        }
        i = i + 1;
        proof {
            assert(out@ =~= out0 + findings(table@, found));
        }
    }
    Ghost((found, runs))
}

/// One probe of a plan: the kind it looks for, the confidence of a positive probe,
/// and the commands that are tried in turn.
pub struct ProbeStep {
    pub kind: InstrumentKind,
    pub confidence: u8,
    pub commands: Vec<&'static str>,
}

/// The probes that a policy runs, in order: none when probing is disabled, the
/// read-only probes, or those followed by the acquisition probe.
pub fn probe_plan(policy: ProbePolicy) -> (r: Vec<ProbeStep>)
    ensures
        policy == ProbePolicy::Disabled ==> r@.len() == 0,
        policy == ProbePolicy::ReadOnly ==> r@.len() == readonly_kinds().len(),
        policy == ProbePolicy::Full ==> r@.len() == full_kinds().len(),
        forall|i: int|
            0 <= i < r@.len() ==> (#[trigger] r@[i]).kind == full_kinds()[i].0 && r@[i].confidence
                == full_kinds()[i].1,
        r@.len() >= 6 ==> {
            &&& texts(r@[0].commands@) == dmm_readonly_spec()
            &&& texts(r@[1].commands@) == psu_readonly_spec()
            &&& texts(r@[2].commands@) == fgen_readonly_spec()
            &&& texts(r@[3].commands@) == scope_readonly_spec()
            &&& texts(r@[4].commands@) == switch_readonly_spec()
            &&& texts(r@[5].commands@) == counter_readonly_spec()
        },
        r@.len() == 7 ==> texts(r@[6].commands@) == dmm_acquisition_spec(),
        r@.len() >= 6 ==> {
            &&& r@[0].kind == InstrumentKind::Dmm && r@[0].confidence == 80
            &&& r@[1].kind == InstrumentKind::DcPowerSupply && r@[1].confidence == 85
            &&& r@[2].kind == InstrumentKind::FunctionGenerator && r@[2].confidence == 85
            &&& r@[3].kind == InstrumentKind::Oscilloscope && r@[3].confidence == 85
            &&& r@[4].kind == InstrumentKind::Switch && r@[4].confidence == 85
            &&& texts(r@[4].commands@) == seq![":ROUTe:CLOS?"@, "ROUT:CLOS?"@, ":ROUTe:CAT?"@, "ROUT:CAT?"@]
            &&& r@[5].kind == InstrumentKind::Counter && r@[5].confidence == 85
        },
        r@.len() == 7 ==> r@[6].kind == InstrumentKind::Dmm && r@[6].confidence == 90,
{
    let mut plan: Vec<ProbeStep> = Vec::new();
    if policy == ProbePolicy::Disabled {
        return plan;
    }
    plan.push(ProbeStep { kind: InstrumentKind::Dmm, confidence: 80, commands: dmm_readonly_commands() });
    plan.push(
        ProbeStep {
            kind: InstrumentKind::DcPowerSupply,
            confidence: 85,
            commands: psu_readonly_commands(),
        },
    );
    plan.push(
        ProbeStep {
            kind: InstrumentKind::FunctionGenerator,
            confidence: 85,
            commands: fgen_readonly_commands(),
        },
    );
    plan.push(
        ProbeStep {
            kind: InstrumentKind::Oscilloscope,
            confidence: 85,
            commands: scope_readonly_commands(),
        },
    );
    plan.push(
        ProbeStep { kind: InstrumentKind::Switch, confidence: 85, commands: switch_readonly_commands() },
    );
    plan.push(
        ProbeStep {
            kind: InstrumentKind::Counter,
            confidence: 85,
            commands: counter_readonly_commands(),
        },
    );
    if policy == ProbePolicy::Full {
        plan.push(
            ProbeStep { kind: InstrumentKind::Dmm, confidence: 90, commands: dmm_acquisition_commands() },
        );
    }
    plan
}

/// Capability probing (layer 5) using the given policy. With probing disabled the
/// session is not used at all; read-only probing sends only the read-only probe
/// commands; deep probing adds the acquisition probes.
pub fn classify_with_policy(session: &mut ScpiSession, policy: ProbePolicy) -> (r: Vec<
    ClassifiedKind,
>)
    ensures
        session_step(*old(session), *final(session)),
        final(session)@.capabilities == old(session)@.capabilities,
        policy == ProbePolicy::Disabled ==> r@.len() == 0 && final(session)@ == old(session)@,
        policy == ProbePolicy::ReadOnly ==> {
            &&& writes_among(
                appended(old(session)@.log, final(session)@.log),
                readonly_commands(),
                old(session)@.opts.terminator@,
            )
            &&& exists|found: Seq<bool>|
                found.len() == readonly_kinds().len() && r@ == #[trigger] findings(
                    readonly_kinds(),
                    found,
                )
            &&& probed(
                appended(old(session)@.log, final(session)@.log),
                readonly_groups(),
                readonly_kinds(),
                millis_duration(800),
                old(session)@.opts.terminator@,
                r@,
            )
        },
        policy == ProbePolicy::Full ==> {
            &&& writes_among(
                appended(old(session)@.log, final(session)@.log),
                full_commands(),
                old(session)@.opts.terminator@,
            )
            &&& exists|found: Seq<bool>|
                found.len() == full_kinds().len() && r@ == #[trigger] findings(full_kinds(), found)
            &&& probed(
                appended(old(session)@.log, final(session)@.log),
                full_groups(),
                full_kinds(),
                millis_duration(800),
                old(session)@.opts.terminator@,
                r@,
            )
        },
{
    match policy {
        ProbePolicy::Disabled => {
            proof {
                assert(session@.log.take(session@.log.len() as int) =~= session@.log);
                assert(appended(session@.log, session@.log) =~= Seq::<LinkEvent>::empty());
            }
            Vec::new()
        },
        ProbePolicy::ReadOnly => {
            let mut out: Vec<ClassifiedKind> = Vec::new();
            let lists = readonly_lists();
            let table = vec![
                (InstrumentKind::Dmm, 80u8),
                (InstrumentKind::DcPowerSupply, 85u8),
                (InstrumentKind::FunctionGenerator, 85u8),
                (InstrumentKind::Oscilloscope, 85u8),
                (InstrumentKind::Switch, 85u8),
                (InstrumentKind::Counter, 85u8),
            ];
            proof {
                assert(table@ =~= readonly_kinds());
                assert(readonly_commands().take(24) =~= readonly_commands());
                lemma_readonly_lists_allowed(lists@, readonly_commands());
            }
            let ghost lists_v = lists@;
            let res = probe_table(session, lists, table, &mut out, Ghost(readonly_commands()));
            proof {
                assert(out@ =~= findings(readonly_kinds(), res@.0));
                assert(groups_of(lists_v) =~= readonly_groups());
                assert(probe_table_run(
                    res@.1,
                    res@.0,
                    appended(old(session)@.log, session@.log),
                    readonly_groups(),
                    millis_duration(800),
                    old(session)@.opts.terminator@,
                ));
            }
            out
        },
        ProbePolicy::Full => {
            let mut out: Vec<ClassifiedKind> = Vec::new();
            let mut lists = readonly_lists();
            lists.push(dmm_acquisition_commands());
            let table = vec![
                (InstrumentKind::Dmm, 80u8),
                (InstrumentKind::DcPowerSupply, 85u8),
                (InstrumentKind::FunctionGenerator, 85u8),
                (InstrumentKind::Oscilloscope, 85u8),
                (InstrumentKind::Switch, 85u8),
                (InstrumentKind::Counter, 85u8),
                (InstrumentKind::Dmm, 90u8),
            ];
            proof {
                assert(table@ =~= full_kinds());
                assert(full_commands().take(24) =~= readonly_commands());
                lemma_readonly_lists_allowed(lists@.take(6), full_commands());
                assert(readonly_commands().len() == 24);
                assert(full_commands().subrange(24, 26) =~= dmm_acquisition_spec());
                lemma_part_contained(dmm_acquisition_spec(), full_commands(), 24);
                assert forall|i: int, j: int|
                    0 <= i < lists@.len() && 0 <= j < lists@[i]@.len() implies #[trigger] full_commands().contains(
                    texts(lists@[i]@)[j],
                ) by {
                    if i < 6 {
                        assert(lists@.take(6)[i] == lists@[i]);
                    } else {
                        assert(texts(lists@[i]@) == dmm_acquisition_spec());
                    }
                }
            }
            let ghost lists_v = lists@;
            let res = probe_table(session, lists, table, &mut out, Ghost(full_commands()));
            proof {
                assert(out@ =~= findings(full_kinds(), res@.0));
                assert(groups_of(lists_v) =~= full_groups());
                assert(probe_table_run(
                    res@.1,
                    res@.0,
                    appended(old(session)@.log, session@.log),
                    full_groups(),
                    millis_duration(800),
                    old(session)@.opts.terminator@,
                ));
            }
            out
        },
    }
}

/// Full capability probing including acquisition-triggering queries.
pub fn classify_deep(session: &mut ScpiSession) -> (r: Vec<ClassifiedKind>)
    ensures
        session_step(*old(session), *final(session)),
        final(session)@.capabilities == old(session)@.capabilities,
        writes_among(
            appended(old(session)@.log, final(session)@.log),
            full_commands(),
            old(session)@.opts.terminator@,
        ),
        exists|found: Seq<bool>|
            found.len() == full_kinds().len() && r@ == #[trigger] findings(full_kinds(), found),
        probed(
            appended(old(session)@.log, final(session)@.log),
            full_groups(),
            full_kinds(),
            millis_duration(800),
            old(session)@.opts.terminator@,
            r@,
        ),
{
    classify_with_policy(session, ProbePolicy::Full)
}


/// One entry of kind `kind` with `confidence` from capability probing when `found`,
/// else none.
pub open spec fn hit(found: bool, kind: InstrumentKind, confidence: u8) -> Seq<ClassifiedKind> {
    if found {
        seq![ClassifiedKind { kind, confidence, source: ClassifySource::CapabilityProbe }]
    } else {
        Seq::empty()
    }
}

/// What read-only probing reports, written out: the six command groups probed in
/// this order, each under `timeout`, and for each group that answered the kind that
/// group detects: the multimeter (80), power-supply, function-generator,
/// oscilloscope, switch and counter commands (85 each).
pub open spec fn readonly_report(
    runs: Seq<Seq<LinkEvent>>,
    found: Seq<bool>,
    events: Seq<LinkEvent>,
    timeout: Duration,
    terminator: Seq<char>,
    result: Seq<ClassifiedKind>,
) -> bool {
    &&& runs.len() == 6
    &&& found.len() == 6
    &&& runs.flatten() == events
    &&& probe_run(runs[0], seq![":SENS:FUNC?"@, "SENS:FUNC?"@, ":FUNC?"@, "FUNC?"@], timeout, terminator, found[0])
    &&& probe_run(runs[1], seq![":OUTP? 1"@, "OUTP? 1"@, ":OUTP?"@, "OUTP?"@], timeout, terminator, found[1])
    &&& probe_run(runs[2], seq![":SOUR:FUNC?"@, "SOUR:FUNC?"@], timeout, terminator, found[2])
    &&& probe_run(
        runs[3],
        seq![
            ":TIMebase:SCALe?"@,
            "TIMebase:SCALe?"@,
            ":CHAN1:SCALe?"@,
            "CHAN1:SCALe?"@,
            ":WAVeform:SOURce?"@,
            "WAVeform:SOURce?"@,
        ],
        timeout,
        terminator,
        found[3],
    )
    &&& probe_run(runs[4], seq![":ROUTe:CLOS?"@, "ROUT:CLOS?"@, ":ROUTe:CAT?"@, "ROUT:CAT?"@], timeout, terminator, found[4])
    &&& probe_run(
        runs[5],
        seq![":COUNter:DATA?"@, "COUN:DATA?"@, ":COUNter:A:DATA?"@, "COUN:A:DATA?"@],
        timeout,
        terminator,
        found[5],
    )
    &&& result == readonly_hits(found)
}

/// The entries of read-only probing for the answered groups `found`, written out:
/// multimeter (80), power supply, function generator, oscilloscope, switch, counter
/// (85 each), in that order.
pub open spec fn readonly_hits(found: Seq<bool>) -> Seq<ClassifiedKind> {
    hit(found[0], InstrumentKind::Dmm, 80) + hit(found[1], InstrumentKind::DcPowerSupply, 85) + hit(
        found[2],
        InstrumentKind::FunctionGenerator,
        85,
    ) + hit(found[3], InstrumentKind::Oscilloscope, 85) + hit(found[4], InstrumentKind::Switch, 85) + hit(
        found[5],
        InstrumentKind::Counter,
        85,
    )
}

/// What deep probing reports, written out: the read-only groups as in
/// `readonly_report`, then the acquisition commands `:MEAS:VOLT:DC?` and
/// `MEAS:VOLT:DC?`, whose answer adds a multimeter entry with confidence 90 last.
pub open spec fn deep_report(
    runs: Seq<Seq<LinkEvent>>,
    found: Seq<bool>,
    events: Seq<LinkEvent>,
    timeout: Duration,
    terminator: Seq<char>,
    result: Seq<ClassifiedKind>,
) -> bool {
    &&& runs.len() == 7
    &&& found.len() == 7
    &&& runs.flatten() == events
    &&& readonly_report(
        runs.take(6),
        found.take(6),
        runs.take(6).flatten(),
        timeout,
        terminator,
        readonly_hits(found.take(6)),
    )
    &&& probe_run(runs[6], seq![":MEAS:VOLT:DC?"@, "MEAS:VOLT:DC?"@], timeout, terminator, found[6])
    &&& result == readonly_hits(found.take(6)) + hit(found[6], InstrumentKind::Dmm, 90)
}

/// Read-only probing (what `classify_with_policy` states under the read-only policy)
/// reports each command group as the kind it detects: the result holds, in probing
/// order, a multimeter entry exactly when a multimeter command answered, a switch
/// entry exactly when a switch command answered, and so on, and nothing else.
pub proof fn lemma_readonly_probe_kinds(events: Seq<LinkEvent>, terminator: Seq<char>, result: Seq<ClassifiedKind>)
    requires
        probed(events, readonly_groups(), readonly_kinds(), millis_duration(800), terminator, result),
    ensures
        exists|runs: Seq<Seq<LinkEvent>>, found: Seq<bool>|
            #[trigger] readonly_report(runs, found, events, millis_duration(800), terminator, result),
{
    let (runs, found) = choose|runs: Seq<Seq<LinkEvent>>, found: Seq<bool>|
        #[trigger] probe_table_run(runs, found, events, readonly_groups(), millis_duration(800), terminator)
            && result == findings(readonly_kinds(), found);
    assert(probe_table_run(runs, found, events, readonly_groups(), millis_duration(800), terminator));
    let t = readonly_kinds();
    let f0 = found.take(0);
    let f1 = found.take(1);
    let f2 = found.take(2);
    let f3 = found.take(3);
    let f4 = found.take(4);
    let f5 = found.take(5);
    assert(f1.drop_last() =~= f0);
    assert(f2.drop_last() =~= f1);
    assert(f3.drop_last() =~= f2);
    assert(f4.drop_last() =~= f3);
    assert(f5.drop_last() =~= f4);
    assert(found.drop_last() =~= f5);
    assert(findings(t, f0) =~= Seq::<ClassifiedKind>::empty());
    assert(findings(t, f1) =~= hit(found[0], InstrumentKind::Dmm, 80));
    assert(findings(t, f2) =~= findings(t, f1) + hit(found[1], InstrumentKind::DcPowerSupply, 85));
    assert(findings(t, f3) =~= findings(t, f2) + hit(found[2], InstrumentKind::FunctionGenerator, 85));
    assert(findings(t, f4) =~= findings(t, f3) + hit(found[3], InstrumentKind::Oscilloscope, 85));
    assert(findings(t, f5) =~= findings(t, f4) + hit(found[4], InstrumentKind::Switch, 85));
    assert(findings(t, found) =~= findings(t, f5) + hit(found[5], InstrumentKind::Counter, 85));
    assert(runs[0] == runs[0]);
    assert(readonly_report(runs, found, events, millis_duration(800), terminator, result));
}


/// Deep probing (what `classify_deep` states) reports what read-only probing of the
/// same groups reports, followed by a multimeter entry with confidence 90 exactly
/// when an acquisition command answered.
pub proof fn lemma_deep_probe_kinds(events: Seq<LinkEvent>, terminator: Seq<char>, result: Seq<ClassifiedKind>)
    requires
        probed(events, full_groups(), full_kinds(), millis_duration(800), terminator, result),
    ensures
        exists|runs: Seq<Seq<LinkEvent>>, found: Seq<bool>|
            #[trigger] deep_report(runs, found, events, millis_duration(800), terminator, result),
{
    let (runs, found) = choose|runs: Seq<Seq<LinkEvent>>, found: Seq<bool>|
        #[trigger] probe_table_run(runs, found, events, full_groups(), millis_duration(800), terminator)
            && result == findings(full_kinds(), found);
    assert(probe_table_run(runs, found, events, full_groups(), millis_duration(800), terminator));
    let t = full_kinds();
    let f0 = found.take(0);
    let f1 = found.take(1);
    let f2 = found.take(2);
    let f3 = found.take(3);
    let f4 = found.take(4);
    let f5 = found.take(5);
    let f6 = found.take(6);
    assert(f1.drop_last() =~= f0);
    assert(f2.drop_last() =~= f1);
    assert(f3.drop_last() =~= f2);
    assert(f4.drop_last() =~= f3);
    assert(f5.drop_last() =~= f4);
    assert(f6.drop_last() =~= f5);
    assert(found.drop_last() =~= f6);
    assert(findings(t, f0) =~= Seq::<ClassifiedKind>::empty());
    assert(findings(t, f1) =~= hit(found[0], InstrumentKind::Dmm, 80));
    assert(findings(t, f2) =~= findings(t, f1) + hit(found[1], InstrumentKind::DcPowerSupply, 85));
    assert(findings(t, f3) =~= findings(t, f2) + hit(found[2], InstrumentKind::FunctionGenerator, 85));
    assert(findings(t, f4) =~= findings(t, f3) + hit(found[3], InstrumentKind::Oscilloscope, 85));
    assert(findings(t, f5) =~= findings(t, f4) + hit(found[4], InstrumentKind::Switch, 85));
    assert(findings(t, f6) =~= findings(t, f5) + hit(found[5], InstrumentKind::Counter, 85));
    assert(findings(t, found) =~= findings(t, f6) + hit(found[6], InstrumentKind::Dmm, 90));
    assert(readonly_hits(f6) =~= findings(t, f6));
    let ro = runs.take(6);
    assert(runs =~= ro.push(runs[6]));
    ro.lemma_flatten_push(runs[6]);
    assert forall|k: int| 0 <= k < 6 implies ro[k] == runs[k] && f6[k] == found[k] by {}
    assert(readonly_report(ro, f6, ro.flatten(), millis_duration(800), terminator, readonly_hits(f6)));
    assert(deep_report(runs, found, events, millis_duration(800), terminator, result));
}

} // verus!
