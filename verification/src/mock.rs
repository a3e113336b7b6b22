//! Scripted transports for deterministic tests, and fixtures that build them.
use crate::address::{InterfaceKind, ResourceAddress};
use crate::error::{Error, Result};
use crate::identity::Idn;
use crate::kind::InstrumentKind;
use crate::text::{
    debug_text, ends_with, spec_debug_text, spec_to_uppercase, spec_utf8_lossy, to_uppercase,
    trim, trim_str, utf8_lossy,
};
use crate::transport::{copy_prefix, no_hints, IdentityHints, Transport, TransportIdentity};
use std::time::Duration;
use vstd::prelude::*;
use vstd::utf8::encode_utf8;

verus! {

/// A single step in a mock transport script.
#[derive(Debug, Clone, PartialEq, Eq)]
pub enum ScriptStep {
    Write { data: String },
    Read { data: String },
    Clear,
}

/// The form in which a written command is compared with the script: trimmed and
/// upper-cased.
pub open spec fn command_form(s: Seq<char>) -> Seq<char> {
    spec_to_uppercase(trim(s))
}

/// What `Debug` writes for a step.
pub open spec fn step_debug_text(step: ScriptStep) -> Seq<char> {
    match step {
        ScriptStep::Write { data } => "Write { data: "@ + spec_debug_text(data@) + " }"@,
        ScriptStep::Read { data } => "Read { data: "@ + spec_debug_text(data@) + " }"@,
        ScriptStep::Clear => "Clear"@,
    }
}

/// `r` is a script mismatch with these two texts.
pub open spec fn is_mismatch<T>(r: Result<T>, expected: Seq<char>, actual: Seq<char>) -> bool {
    r matches Err(Error::MockMismatch { expected: e, actual: a }) && e@ == expected && a@ == actual
}

/// The state of a scripted transport: its script, how far it has been played, and the
/// writes and reads still to fail with a timeout.
pub struct MockState {
    pub script: Seq<ScriptStep>,
    pub cursor: int,
    pub fail_writes: u32,
    pub fail_reads: u32,
    pub identity: IdentityHints,
}

/// Scripted request/response transport for deterministic tests.
///
/// Each write, read or clear plays the next step of the script. An operation that does
/// not match the next step fails with `MockMismatch` and leaves the script where it
/// was, so a read that finds a write pending does not lose it.
#[derive(Debug)]
pub struct MockTransport {
    script: Vec<ScriptStep>,
    cursor: usize,
    identity: TransportIdentity,
    fail_writes_remaining: u32,
    fail_reads_remaining: u32,
}

impl View for MockTransport {
    type V = MockState;

    closed spec fn view(&self) -> MockState {
        MockState {
            script: self.script@,
            cursor: self.cursor as int,
            fail_writes: self.fail_writes_remaining,
            fail_reads: self.fail_reads_remaining,
            identity: self.identity@,
        }
    }
}

/// What a write of `data` does to a mock in state `m`.
pub open spec fn mock_write(m: MockState, data: Seq<u8>, r: Result<()>, after: MockState) -> bool {
    let actual = spec_utf8_lossy(data);
    if m.fail_writes > 0 {
        &&& r matches Err(Error::Timeout)
        &&& after == MockState { fail_writes: (m.fail_writes - 1) as u32, ..m }
    } else if m.cursor >= m.script.len() {
        r matches Err(Error::MockExhausted) && after == m
    } else {
        match m.script[m.cursor] {
            ScriptStep::Write { data: expected } => if command_form(actual) == command_form(
                expected@,
            ) {
                r is Ok && after == MockState { cursor: m.cursor + 1, ..m }
            } else {
                is_mismatch(r, expected@, actual) && after == m
            },
            other => is_mismatch(r, "write, got "@ + step_debug_text(other), actual) && after
                == m,
        }
    }
}

/// `m` played its next script step with the operation that step expects, `ok` being
/// whether that operation succeeded: a write of text equal to the step's in command
/// form, a read into some buffer, or a clear.
pub open spec fn plays_expected(m: MockState, after: MockState, ok: bool) -> bool {
    match m.script[m.cursor] {
        ScriptStep::Write { data: expected } => exists|data: Seq<u8>, r: Result<()>|
            command_form(spec_utf8_lossy(data)) == command_form(expected@) && #[trigger] mock_write(
                m,
                data,
                r,
                after,
            ) && ok == r is Ok,
        ScriptStep::Read { .. } => exists|buf: Seq<u8>, r: Result<usize>, filled: Seq<u8>|
            #[trigger] mock_read(m, buf, r, after, filled) && ok == r is Ok,
        ScriptStep::Clear => exists|r: Result<()>| #[trigger] mock_clear(m, r, after) && ok == r is Ok,
    }
}

/// A scripted run: from the start of its script, with no failures forced, a mock
/// that is driven by the operations its script expects, in order, answers every one
/// of them and moves one step on each time.
pub proof fn lemma_scripted_run(states: Seq<MockState>, oks: Seq<bool>)
    requires
        states.len() == oks.len() + 1,
        oks.len() <= states[0].script.len(),
        states[0].cursor == 0,
        states[0].fail_writes == 0,
        states[0].fail_reads == 0,
        forall|i: int| 0 <= i < oks.len() ==> plays_expected(states[i], states[i + 1], #[trigger] oks[i]),
    ensures
        forall|i: int| 0 <= i < oks.len() ==> #[trigger] oks[i],
        forall|i: int| 0 <= i < states.len() ==> #[trigger] states[i] == (MockState { cursor: i, ..states[0] }),
    decreases oks.len(),
{
    if oks.len() > 0 {
        let k = oks.len() - 1;
        lemma_scripted_run(states.drop_last(), oks.drop_last());
        assert(states.drop_last()[k] == states[k]);
        let m = states[k];
        assert(m == (MockState { cursor: k, ..states[0] }));
        assert(plays_expected(m, states[k + 1], oks[k]));
        assert forall|i: int| 0 <= i < oks.len() implies #[trigger] oks[i] by {
            if i < k {
                assert(oks[i] == oks.drop_last()[i]);
            }
        }
        assert forall|i: int| 0 <= i < states.len() implies #[trigger] states[i] == (MockState {
            cursor: i,
            ..states[0]
        }) by {
            if i <= k {
                assert(states[i] == states.drop_last()[i]);
            }
        }
    }
}

/// The next `n` writes after `n` forced write failures all time out, whatever they
/// send, and leave the script where it was with no failure pending: `states` are the
/// mock's states around each write of `writes`, `results` what the writes returned.
pub proof fn lemma_forced_write_failures(
    states: Seq<MockState>,
    writes: Seq<Seq<u8>>,
    results: Seq<Result<()>>,
)
    requires
        states.len() == writes.len() + 1,
        results.len() == writes.len(),
        writes.len() <= states[0].fail_writes,
        forall|i: int|
            0 <= i < writes.len() ==> mock_write(states[i], #[trigger] writes[i], results[i], states[i + 1]),
    ensures
        forall|i: int| 0 <= i < results.len() ==> #[trigger] results[i] matches Err(Error::Timeout),
        states.last() == (MockState {
            fail_writes: (states[0].fail_writes - writes.len()) as u32,
            ..states[0]
        }),
    decreases writes.len(),
{
    if writes.len() > 0 {
        let k = writes.len() - 1;
        lemma_forced_write_failures(states.drop_last(), writes.drop_last(), results.drop_last());
        assert(states.drop_last().last() == states[k]);
        assert(mock_write(states[k], writes[k], results[k], states[k + 1]));
        assert forall|i: int| 0 <= i < results.len() implies #[trigger] results[i] matches Err(
            Error::Timeout,
        ) by {
            if i < k {
                assert(results[i] == results.drop_last()[i]);
            }
        }
    }
}

/// What a read into a buffer holding `before` does to a mock in state `m`.
pub open spec fn mock_read(
    m: MockState,
    before: Seq<u8>,
    r: Result<usize>,
    after: MockState,
    buf: Seq<u8>,
) -> bool {
    if m.fail_reads > 0 {
        &&& r matches Err(Error::Timeout)
        &&& after == MockState { fail_reads: (m.fail_reads - 1) as u32, ..m }
        &&& buf == before
    } else if m.cursor >= m.script.len() {
        r matches Err(Error::MockExhausted) && after == m && buf == before
    } else {
        match m.script[m.cursor] {
            ScriptStep::Read { data } => {
                let bytes = encode_utf8(data@);
                let n = if before.len() < bytes.len() {
                    before.len() as int
                } else {
                    bytes.len() as int
                };
                &&& r == Ok::<usize, Error>(n as usize)
                &&& after == MockState { cursor: m.cursor + 1, ..m }
                &&& buf.len() == before.len()
                &&& buf.take(n) == bytes.take(n)
                &&& buf.skip(n) == before.skip(n)
            },
            other => is_mismatch(r, "read"@, step_debug_text(other)) && after == m && buf
                == before,
        }
    }
}

/// What a clear does to a mock in state `m`.
pub open spec fn mock_clear(m: MockState, r: Result<()>, after: MockState) -> bool {
    if m.cursor >= m.script.len() {
        r matches Err(Error::MockExhausted) && after == m
    } else {
        match m.script[m.cursor] {
            ScriptStep::Clear => r is Ok && after == MockState { cursor: m.cursor + 1, ..m },
            other => is_mismatch(r, "clear"@, step_debug_text(other)) && after == m,
        }
    }
}

fn same_text(a: &str, b: &str) -> (r: bool)
    ensures
        r == (a@ == b@),
{
    let x = a.to_owned();
    let y = b.to_owned();
    x == y
}

fn command_key(s: &str) -> (r: String)
    ensures
        r@ == command_form(s@),
{
    let t = trim_str(s);
    to_uppercase(t.as_str())
}

fn step_debug(step: &ScriptStep) -> (r: String)
    ensures
        r@ == step_debug_text(*step),
{
    match step {
        ScriptStep::Write { data } => {
            let mut out = "Write { data: ".to_owned();
            let d = debug_text(data.as_str());
            out.append(d.as_str());
            out.append(" }");
            out
        },
        ScriptStep::Read { data } => {
            let mut out = "Read { data: ".to_owned();
            let d = debug_text(data.as_str());
            out.append(d.as_str());
            out.append(" }");
            out
        },
        ScriptStep::Clear => "Clear".to_owned(),
    }
}

fn copy_steps(steps: &Vec<ScriptStep>) -> (r: Vec<ScriptStep>)
    ensures
        r@ == steps@,
{
    let mut out: Vec<ScriptStep> = Vec::new();
    let mut i: usize = 0;
    while i < steps.len()
        invariant
            i <= steps@.len(),
            out@ == steps@.take(i as int),
        decreases steps@.len() - i,
    {
        let step = match &steps[i] {
            ScriptStep::Write { data } => ScriptStep::Write { data: data.clone() },
            ScriptStep::Read { data } => ScriptStep::Read { data: data.clone() },
            ScriptStep::Clear => ScriptStep::Clear,
        };
        out.push(step);
        i = i + 1;
        assert(out@ =~= steps@.take(i as int));
    }
    assert(steps@.take(steps@.len() as int) =~= steps@);
    out
}

impl MockTransport {
    /// A transport that plays `steps` from the first.
    pub fn from_script(steps: Vec<ScriptStep>) -> (r: Self)
        ensures
            r@ == (MockState {
                script: steps@,
                cursor: 0,
                fail_writes: 0,
                fail_reads: 0,
                identity: no_hints(),
            }),
    {
        MockTransport {
            script: steps,
            cursor: 0,
            identity: TransportIdentity::empty(),
            fail_writes_remaining: 0,
            fail_reads_remaining: 0,
        }
    }

    /// A fresh transport replaying the same script from the start (for new sessions),
    /// with the same identity and failures still pending.
    pub fn reopen(&self) -> (r: Self)
        ensures
            r@ == (MockState { cursor: 0, ..self@ }),
    {
        MockTransport {
            script: copy_steps(&self.script),
            cursor: 0,
            identity: self.identity.duplicate(),
            fail_writes_remaining: self.fail_writes_remaining,
            fail_reads_remaining: self.fail_reads_remaining,
        }
    }

    /// The whole script.
    pub fn script(&self) -> (r: &[ScriptStep])
        ensures
            r@ == self@.script,
    {
        self.script.as_slice()
    }

    /// The same transport, reporting `identity` as its hints.
    pub fn with_identity(self, identity: TransportIdentity) -> (r: Self)
        ensures
            r@ == (MockState { identity: identity@, ..self@ }),
    {
        MockTransport { identity, ..self }
    }

    /// Fails the next `count` write attempts with a timeout (for retry testing).
    pub fn fail_writes(self, count: u32) -> (r: Self)
        ensures
            r@ == (MockState { fail_writes: count, ..self@ }),
    {
        MockTransport { fail_writes_remaining: count, ..self }
    }

    /// Fails the next `count` read attempts with a timeout (for retry testing).
    pub fn fail_reads(self, count: u32) -> (r: Self)
        ensures
            r@ == (MockState { fail_reads: count, ..self@ }),
    {
        MockTransport { fail_reads_remaining: count, ..self }
    }

    /// Plays a write of `data`.
    pub fn play_write(&mut self, data: &[u8]) -> (r: Result<()>)
        ensures
            mock_write(old(self)@, data@, r, final(self)@),
    {
        if self.fail_writes_remaining > 0 {
            self.fail_writes_remaining = self.fail_writes_remaining - 1;
            return Err(Error::Timeout);
        }
        if self.cursor >= self.script.len() {
            return Err(Error::MockExhausted);
        }
        let actual = utf8_lossy(data);
        match &self.script[self.cursor] {
            ScriptStep::Write { data: expected } => {
                let a = command_key(actual.as_str());
                let e = command_key(expected.as_str());
                if same_text(a.as_str(), e.as_str()) {
                    self.cursor = self.cursor + 1;
                    Ok(())
                } else {
                    Err(Error::MockMismatch { expected: expected.clone(), actual })
                }
            },
            other => {
                let mut expected = "write, got ".to_owned();
                let d = step_debug(other);
                expected.append(d.as_str());
                Err(Error::MockMismatch { expected, actual })
            },
        }
    }

    /// Plays a read into `buf`.
    pub fn play_read(&mut self, buf: &mut [u8]) -> (r: Result<usize>)
        ensures
            mock_read(old(self)@, old(buf)@, r, final(self)@, final(buf)@),
    {
        if self.fail_reads_remaining > 0 {
            self.fail_reads_remaining = self.fail_reads_remaining - 1;
            return Err(Error::Timeout);
        }
        if self.cursor >= self.script.len() {
            return Err(Error::MockExhausted);
        }
        match &self.script[self.cursor] {
            ScriptStep::Read { data } => {
                let n = copy_prefix(buf, data.as_str().as_bytes());
                self.cursor = self.cursor + 1;
                Ok(n)
            },
            other => {
                let actual = step_debug(other);
                Err(Error::MockMismatch { expected: "read".to_owned(), actual })
            },
        }
    }

    /// Plays a clear.
    pub fn play_clear(&mut self) -> (r: Result<()>)
        ensures
            mock_clear(old(self)@, r, final(self)@),
    {
        if self.cursor >= self.script.len() {
            return Err(Error::MockExhausted);
        }
        match &self.script[self.cursor] {
            ScriptStep::Clear => {
                self.cursor = self.cursor + 1;
                Ok(())
            },
            other => {
                let actual = step_debug(other);
                Err(Error::MockMismatch { expected: "clear".to_owned(), actual })
            },
        }
    }
}

impl Transport for MockTransport {
    fn write(&mut self, data: &[u8]) -> (r: Result<()>)
        ensures
            mock_write(old(self)@, data@, r, final(self)@),
    {
        self.play_write(data)
    }

    fn read(&mut self, buf: &mut [u8]) -> (r: Result<usize>)
        ensures
            mock_read(old(self)@, old(buf)@, r, final(self)@, final(buf)@),
    {
        self.play_read(buf)
    }

    fn clear(&mut self) -> (r: Result<()>)
        ensures
            mock_clear(old(self)@, r, final(self)@),
    {
        self.play_clear()
    }

    fn set_read_timeout(&mut self, _timeout: Duration) -> (r: Result<()>)
        ensures
            r is Ok,
            final(self)@ == old(self)@,
    {
        Ok(())
    }

    fn identity(&self) -> (r: TransportIdentity)
        ensures
            r@ == self@.identity,
    {
        self.identity.duplicate()
    }
}

/// `s` ending with a newline: as it is when it does, else with one appended.
pub open spec fn with_newline(s: Seq<char>) -> Seq<char> {
    if ends_with(s, "\n"@) {
        s
    } else {
        s + "\n"@
    }
}

fn newline_terminated(s: &str) -> (r: String)
    ensures
        r@ == with_newline(s@),
{
    let c = crate::text::chars_of(s);
    let nl = crate::text::chars_of("\n");
    let mut out = s.to_owned();
    if !crate::text::chars_end_with(c.as_slice(), nl.as_slice()) {
        out.append("\n");
    }
    out
}

/// What a fixture is: the identity it answers, the kinds it stands for, its query
/// handlers in the order first registered, and its expected writes.
pub struct FixtureModel {
    pub idn: Idn,
    pub kinds: Seq<InstrumentKind>,
    pub queries: Seq<(Seq<char>, Seq<char>)>,
    pub writes: Seq<Seq<char>>,
}

/// The position of the first handler for `query` at or after `i`.
pub open spec fn handler_index(handlers: Seq<(Seq<char>, Seq<char>)>, query: Seq<char>, i: int) -> Option<
    int,
>
    decreases handlers.len() - i,
{
    if i < 0 || i >= handlers.len() {
        None
    } else if handlers[i].0 == query {
        Some(i)
    } else {
        handler_index(handlers, query, i + 1)
    }
}

/// The handlers after registering `response` for `query`: an earlier response for the
/// same query is replaced in place, else the pair is added at the end.
pub open spec fn with_handler(
    handlers: Seq<(Seq<char>, Seq<char>)>,
    query: Seq<char>,
    response: Seq<char>,
) -> Seq<(Seq<char>, Seq<char>)> {
    match handler_index(handlers, query, 0) {
        Some(i) => handlers.update(i, (query, response)),
        None => handlers.push((query, response)),
    }
}

proof fn lemma_handler_index_skips(handlers: Seq<(Seq<char>, Seq<char>)>, query: Seq<char>, i: int)
    requires
        0 <= i <= handlers.len(),
        forall|k: int| 0 <= k < i ==> (#[trigger] handlers[k]).0 != query,
    ensures
        handler_index(handlers, query, 0) == handler_index(handlers, query, i),
    decreases i,
{
    if i > 0 {
        lemma_handler_index_skips(handlers, query, i - 1);
    }
}

/// The script of a fixture: each expected write (newline-terminated), then for each
/// query handler the query with a newline and its response (newline-terminated).
pub open spec fn fixture_script(m: FixtureModel, script: Seq<ScriptStep>) -> bool {
    let w = m.writes.len();
    &&& script.len() == w + 2 * m.queries.len()
    &&& forall|i: int|
        0 <= i < w ==> (#[trigger] script[i] matches ScriptStep::Write { data } && data@
            == with_newline(m.writes[i]))
    &&& forall|j: int|
        0 <= j < m.queries.len() ==> (#[trigger] script[w + 2 * j] matches ScriptStep::Write {
            data,
        } && data@ == m.queries[j].0 + "\n"@)
    &&& forall|j: int|
        0 <= j < m.queries.len() ==> (#[trigger] script[w + 2 * j + 1] matches ScriptStep::Read {
            data,
        } && data@ == with_newline(m.queries[j].1))
}

fn copy_kinds(v: &Vec<InstrumentKind>) -> (r: Vec<InstrumentKind>)
    ensures
        r@ == v@,
{
    let mut out: Vec<InstrumentKind> = Vec::new();
    let mut i: usize = 0;
    while i < v.len()
        invariant
            i <= v@.len(),
            out@ == v@.take(i as int),
        decreases v@.len() - i,
    {
        out.push(v[i]);
        i = i + 1;
        assert(out@ =~= v@.take(i as int));
    }
    assert(v@.take(v@.len() as int) =~= v@);
    out
}

/// High-level fixture builder for common instrument patterns.
#[derive(Debug)]
pub struct ScriptedFixture {
    idn: Idn,
    kinds: Vec<InstrumentKind>,
    query_handlers: Vec<(String, String)>,
    write_handlers: Vec<String>,
}

/// Builder of a [`ScriptedFixture`].
#[derive(Debug)]
pub struct ScriptedFixtureBuilder {
    idn: Idn,
    kinds: Vec<InstrumentKind>,
    query_handlers: Vec<(String, String)>,
    write_handlers: Vec<String>,
}

pub open spec fn handler_texts(h: Seq<(String, String)>) -> Seq<(Seq<char>, Seq<char>)> {
    h.map_values(|p: (String, String)| (p.0@, p.1@))
}

pub open spec fn write_texts(w: Seq<String>) -> Seq<Seq<char>> {
    w.map_values(|s: String| s@)
}

impl View for ScriptedFixture {
    type V = FixtureModel;

    closed spec fn view(&self) -> FixtureModel {
        FixtureModel {
            idn: self.idn,
            kinds: self.kinds@,
            queries: handler_texts(self.query_handlers@),
            writes: write_texts(self.write_handlers@),
        }
    }
}

impl View for ScriptedFixtureBuilder {
    type V = FixtureModel;

    closed spec fn view(&self) -> FixtureModel {
        FixtureModel {
            idn: self.idn,
            kinds: self.kinds@,
            queries: handler_texts(self.query_handlers@),
            writes: write_texts(self.write_handlers@),
        }
    }
}

impl Default for ScriptedFixture {
    /// An empty fixture.
    fn default() -> (r: Self)
        ensures
            r@.kinds.len() == 0,
            r@.queries.len() == 0,
            r@.writes.len() == 0,
    {
        ScriptedFixture {
            idn: Idn::default(),
            kinds: Vec::new(),
            query_handlers: Vec::new(),
            write_handlers: Vec::new(),
        }
    }
}

impl Default for ScriptedFixtureBuilder {
    /// A builder with nothing registered.
    fn default() -> (r: Self)
        ensures
            r@.kinds.len() == 0,
            r@.queries.len() == 0,
            r@.writes.len() == 0,
            r@.idn.manufacturer@.len() == 0,
            r@.idn.model@.len() == 0,
            r@.idn.serial@.len() == 0,
            r@.idn.firmware@.len() == 0,
    {
        ScriptedFixtureBuilder {
            idn: Idn::default(),
            kinds: Vec::new(),
            query_handlers: Vec::new(),
            write_handlers: Vec::new(),
        }
    }
}

impl ScriptedFixture {
    /// A builder with nothing registered.
    pub fn builder() -> (r: ScriptedFixtureBuilder)
        ensures
            r@.kinds.len() == 0,
            r@.queries.len() == 0,
            r@.writes.len() == 0,
            r@.idn.manufacturer@.len() == 0,
            r@.idn.model@.len() == 0,
            r@.idn.serial@.len() == 0,
            r@.idn.firmware@.len() == 0,
    {
        ScriptedFixtureBuilder::default()
    }

    /// A mock transport playing the fixture: its writes, then its queries with their
    /// responses; it reports the fixture's identity.
    pub fn into_transport(self) -> (r: MockTransport)
        ensures
            fixture_script(self@, r@.script),
            r@.cursor == 0,
            r@.fail_writes == 0,
            r@.fail_reads == 0,
            r@.identity == (IdentityHints {
                manufacturer: Some(self@.idn.manufacturer@),
                model: Some(self@.idn.model@),
                serial: Some(self@.idn.serial@),
                interface: InterfaceKind::Unknown,
                manf_id: None,
                model_code: None,
            }),
    {
        let mut steps: Vec<ScriptStep> = Vec::new();
        let ghost m = self@;
        let mut i: usize = 0;
        while i < self.write_handlers.len()
            invariant
                m == self@,
                i <= self.write_handlers@.len(),
                steps@.len() == i,
                forall|k: int|
                    0 <= k < i ==> (#[trigger] steps@[k] matches ScriptStep::Write { data } && data@
                        == with_newline(m.writes[k])),
            decreases self.write_handlers@.len() - i,
        {
            let data = newline_terminated(self.write_handlers[i].as_str());
            steps.push(ScriptStep::Write { data });
            i = i + 1;
        }
        let w = self.write_handlers.len();
        let mut j: usize = 0;
        while j < self.query_handlers.len()
            invariant
                m == self@,
                w == m.writes.len(),
                j <= self.query_handlers@.len(),
                steps@.len() == w + 2 * j,
                forall|k: int|
                    0 <= k < w ==> (#[trigger] steps@[k] matches ScriptStep::Write { data } && data@
                        == with_newline(m.writes[k])),
                forall|k: int|
                    0 <= k < j ==> (#[trigger] steps@[w + 2 * k] matches ScriptStep::Write { data }
                        && data@ == m.queries[k].0 + "\n"@),
                forall|k: int|
                    0 <= k < j ==> (#[trigger] steps@[w + 2 * k + 1] matches ScriptStep::Read { data }
                        && data@ == with_newline(m.queries[k].1)),
            decreases self.query_handlers@.len() - j,
        {
            let (query, response) = &self.query_handlers[j];
            let mut data = query.clone();
            data.append("\n");
            steps.push(ScriptStep::Write { data });
            let resp = newline_terminated(response.as_str());
            steps.push(ScriptStep::Read { data: resp });
            proof {
                assert(m.queries[j as int] == (query@, response@));
            }
            j = j + 1;
            proof {
                assert forall|k: int| 0 <= k < j implies (#[trigger] steps@[w + 2 * k] matches ScriptStep::Write {
                    data,
                } && data@ == m.queries[k].0 + "\n"@) by {
                    if k < j - 1 {
                        assert(steps@[w + 2 * k] == steps@.drop_last().drop_last()[w + 2 * k]);
                    }
                }
                assert forall|k: int| 0 <= k < j implies (#[trigger] steps@[w + 2 * k + 1] matches ScriptStep::Read {
                    data,
                } && data@ == with_newline(m.queries[k].1)) by {
                    if k < j - 1 {
                        assert(steps@[w + 2 * k + 1] == steps@.drop_last().drop_last()[w + 2 * k + 1]);
                    }
                }
            }
        }
        let identity = TransportIdentity {
            manufacturer: Some(self.idn.manufacturer.clone()),
            model: Some(self.idn.model.clone()),
            serial: Some(self.idn.serial.clone()),
            interface: InterfaceKind::Unknown,
            manf_id: None,
            model_code: None,
        };
        MockTransport::from_script(steps).with_identity(identity)
    }

    /// The kinds the fixture stands for.
    pub fn kinds(&self) -> (r: &[InstrumentKind])
        ensures
            r@ == self@.kinds,
    {
        self.kinds.as_slice()
    }

    /// The identity the fixture answers.
    pub fn idn(&self) -> (r: &Idn)
        ensures
            *r == self@.idn,
    {
        &self.idn
    }
}

impl ScriptedFixtureBuilder {
    /// Sets the identity.
    pub fn idn(self, manufacturer: &str, model: &str, serial: &str, firmware: &str) -> (r: Self)
        ensures
            r@.idn.manufacturer@ == manufacturer@,
            r@.idn.model@ == model@,
            r@.idn.serial@ == serial@,
            r@.idn.firmware@ == firmware@,
            r@.kinds == self@.kinds,
            r@.queries == self@.queries,
            r@.writes == self@.writes,
    {
        ScriptedFixtureBuilder {
            idn: Idn {
                manufacturer: manufacturer.to_owned(),
                model: model.to_owned(),
                serial: serial.to_owned(),
                firmware: firmware.to_owned(),
            },
            ..self
        }
    }

    /// Sets the kinds.
    pub fn kinds(self, kinds: Vec<InstrumentKind>) -> (r: Self)
        ensures
            r@ == (FixtureModel { kinds: kinds@, ..self@ }),
    {
        ScriptedFixtureBuilder { kinds, ..self }
    }

    /// Answers `query` with `response`, replacing an earlier response to it.
    pub fn on_query(self, query: &str, response: &str) -> (r: Self)
        ensures
            r@ == (FixtureModel { queries: with_handler(self@.queries, query@, response@), ..self@ }),
    {
        let mut b = self;
        let ghost before = handler_texts(b.query_handlers@);
        let mut i: usize = 0;
        while i < b.query_handlers.len()
            invariant
                i <= b.query_handlers@.len(),
                before == handler_texts(b.query_handlers@),
                b@ == self@,
                forall|k: int| 0 <= k < i ==> (#[trigger] before[k]).0 != query@,
            decreases b.query_handlers@.len() - i,
        {
            if same_text(b.query_handlers[i].0.as_str(), query) {
                let mut handlers = b.query_handlers;
                handlers.set(i, (query.to_owned(), response.to_owned()));
                proof {
                    assert(before[i as int].0 == query@);
                    lemma_handler_index_skips(before, query@, i as int);
                    assert(handler_texts(handlers@) =~= before.update(i as int, (query@, response@)));
                }
                return ScriptedFixtureBuilder { query_handlers: handlers, ..b };
            }
            i = i + 1;
        }
        b.query_handlers.push((query.to_owned(), response.to_owned()));
        proof {
            lemma_handler_index_skips(before, query@, before.len() as int);
            assert(handler_texts(b.query_handlers@) =~= before.push((query@, response@)));
        }
        b
    }

    /// Expects a write-only command (no response read).
    pub fn on_write(self, command: &str) -> (r: Self)
        ensures
            r@ == (FixtureModel { writes: self@.writes.push(command@), ..self@ }),
    {
        let mut b = self;
        b.write_handlers.push(command.to_owned());
        proof {
            assert(write_texts(b.write_handlers@) =~= self@.writes.push(command@));
        }
        b
    }

    /// Registers the `*IDN?` response for discovery probing.
    pub fn with_idn_probe(self) -> (r: Self)
        ensures
            r@ == (FixtureModel {
                queries: with_handler(
                    self@.queries,
                    "*IDN?"@,
                    crate::identity::idn_text(self@.idn),
                ),
                ..self@
            }),
    {
        let response = self.idn.format_response();
        self.on_query("*IDN?", response.as_str())
    }

    /// The fixture.
    pub fn build(self) -> (r: ScriptedFixture)
        ensures
            r@ == self@,
    {
        ScriptedFixture {
            idn: self.idn,
            kinds: self.kinds,
            query_handlers: self.query_handlers,
            write_handlers: self.write_handlers,
        }
    }
}

/// Builds a mock address for fixture-based catalogs.
pub fn mock_address(name: &str) -> (r: Result<ResourceAddress>)
    ensures
        r matches Ok(a) && a.raw@ == trim("mock://"@ + name@),
{
    proof {
        reveal_strlit("mock://");
    }
    let mut text = "mock://".to_owned();
    text.append(name);
    let r = ResourceAddress::parse(text.as_str());
    proof {
        assert(text@[0] == 'm');
        crate::text::lemma_trim_nonempty(text@);
    }
    r
}

/// Serializable transcript for fixture storage and replay.
#[derive(Debug, Clone)]
pub struct Transcript {
    pub steps: Vec<ScriptStep>,
}

impl Transcript {
    /// A transcript of `steps`.
    pub fn from_steps(steps: Vec<ScriptStep>) -> (r: Self)
        ensures
            r.steps@ == steps@,
    {
        Transcript { steps }
    }
}

} // verus!
