//! A transport wrapper that records I/O for replay as a mock script.
use crate::connect::ConnectOptions;
use crate::error::Result;
use crate::mock::ScriptStep;
use crate::text::{spec_utf8_lossy, utf8_lossy};
use crate::transport::{Transport, TransportIdentity};
use std::time::Duration;
use vstd::prelude::*;

verus! {

pub use crate::mock::Transcript;

/// Records I/O on a wrapped transport for replay as a `MockTransport` script.
#[derive(Debug)]
pub struct RecordingTransport<T: Transport> {
    inner: T,
    pub steps: Vec<ScriptStep>,
}

/// `after` is `before` with one step appended that `is_step` describes.
pub open spec fn recorded(
    before: Seq<ScriptStep>,
    after: Seq<ScriptStep>,
    is_step: spec_fn(ScriptStep) -> bool,
) -> bool {
    after.len() == before.len() + 1 && after.take(before.len() as int) == before && is_step(
        after.last(),
    )
}

impl<T: Transport> RecordingTransport<T> {
    /// The steps recorded so far.
    pub closed spec fn recorded_steps(&self) -> Seq<ScriptStep> {
        self.steps@
    }

    /// The wrapped transport.
    pub closed spec fn wrapped(&self) -> T {
        self.inner
    }

    /// A recorder around `inner`, with nothing recorded yet.
    pub fn new(inner: T) -> (r: Self)
        ensures
            r.recorded_steps().len() == 0,
            r.wrapped() == inner,
    {
        RecordingTransport { inner, steps: Vec::new() }
    }

    /// The recorded steps.
    pub fn into_script(self) -> (r: Vec<ScriptStep>)
        ensures
            r@ == self.recorded_steps(),
    {
        self.steps
    }

    /// The wrapped transport.
    pub fn into_inner(self) -> (r: T)
        ensures
            r == self.wrapped(),
    {
        self.inner
    }

    /// Records a write of `data` (as text, invalid UTF-8 replaced), then writes it.
    pub fn record_write(&mut self, data: &[u8]) -> (r: Result<()>)
        ensures
            recorded(
                old(self).recorded_steps(),
                final(self).recorded_steps(),
                |s: ScriptStep| s matches ScriptStep::Write { data: d } && d@ == spec_utf8_lossy(data@),
            ),
    {
        self.steps.push(ScriptStep::Write { data: utf8_lossy(data) });
        proof {
            assert(self.steps@.take(old(self).steps@.len() as int) =~= old(self).steps@);
        }
        self.inner.write(data)
    }

    /// Reads from the wrapped transport and records what was read; a failed read is
    /// not recorded. A count beyond the buffer is taken as the whole buffer.
    pub fn record_read(&mut self, buf: &mut [u8]) -> (r: Result<usize>)
        ensures
            final(buf)@.len() == old(buf)@.len(),
            r is Err ==> final(self).recorded_steps() == old(self).recorded_steps(),
            r matches Ok(n) ==> n <= final(buf)@.len() && recorded(
                old(self).recorded_steps(),
                final(self).recorded_steps(),
                |s: ScriptStep|
                    s matches ScriptStep::Read { data: d } && d@ == spec_utf8_lossy(
                        final(buf)@.take(n as int),
                    ),
            ),
    {
        let n = match self.inner.read(buf) {
            Ok(n) => if n > buf.len() {
                buf.len()
            } else {
                n
            },
            Err(e) => {
                return Err(e);
            },
        };
        let mut taken: Vec<u8> = Vec::new();
        let mut i: usize = 0;
        while i < n
            invariant
                i <= n <= buf@.len(),
                taken@ == buf@.take(i as int),
            decreases n - i,
        {
            taken.push(buf[i]);
            i = i + 1;
            assert(taken@ =~= buf@.take(i as int));
        }
        self.steps.push(ScriptStep::Read { data: utf8_lossy(taken.as_slice()) });
        proof {
            assert(self.steps@.take(old(self).steps@.len() as int) =~= old(self).steps@);
        }
        Ok(n)
    }

    /// Records a clear, then clears the wrapped transport.
    pub fn record_clear(&mut self) -> (r: Result<()>)
        ensures
            recorded(old(self).recorded_steps(), final(self).recorded_steps(), |s: ScriptStep| s is Clear),
    {
        self.steps.push(ScriptStep::Clear);
        proof {
            assert(self.steps@.take(old(self).steps@.len() as int) =~= old(self).steps@);
        }
        self.inner.clear()
    }
}

impl<T: Transport> Transport for RecordingTransport<T> {
    fn write(&mut self, data: &[u8]) -> (r: Result<()>)
        ensures
            recorded(
                old(self).recorded_steps(),
                final(self).recorded_steps(),
                |s: ScriptStep| s matches ScriptStep::Write { data: d } && d@ == spec_utf8_lossy(data@),
            ),
    {
        self.record_write(data)
    }

    fn read(&mut self, buf: &mut [u8]) -> (r: Result<usize>)
        ensures
            r is Err ==> final(self).recorded_steps() == old(self).recorded_steps(),
            r matches Ok(n) ==> n <= final(buf)@.len() && recorded(
                old(self).recorded_steps(),
                final(self).recorded_steps(),
                |s: ScriptStep|
                    s matches ScriptStep::Read { data: d } && d@ == spec_utf8_lossy(
                        final(buf)@.take(n as int),
                    ),
            ),
    {
        self.record_read(buf)
    }

    fn clear(&mut self) -> (r: Result<()>)
        ensures
            recorded(old(self).recorded_steps(), final(self).recorded_steps(), |s: ScriptStep| s is Clear),
    {
        self.record_clear()
    }

    fn set_read_timeout(&mut self, timeout: Duration) -> (r: Result<()>)
        ensures
            final(self).recorded_steps() == old(self).recorded_steps(),
    {
        self.inner.set_read_timeout(timeout)
    }

    fn pause(&mut self, delay: Duration)
        ensures
            final(self).recorded_steps() == old(self).recorded_steps(),
    {
        self.inner.pause(delay)
    }

    fn reconnect(&mut self) -> (r: Result<()>)
        ensures
            final(self).recorded_steps() == old(self).recorded_steps(),
    {
        self.inner.reconnect()
    }

    fn identity(&self) -> TransportIdentity {
        self.inner.identity()
    }

    fn configure(&mut self, opts: &ConnectOptions) -> (r: Result<()>)
        ensures
            final(self).recorded_steps() == old(self).recorded_steps(),
    {
        self.inner.configure(opts)
    }
}


/// The number of `true` flags in `flags`.
pub open spec fn count_true(flags: Seq<bool>) -> nat
    decreases flags.len(),
{
    if flags.len() == 0 {
        0
    } else {
        count_true(flags.drop_last()) + if flags.last() {
            1nat
        } else {
            0nat
        }
    }
}

proof fn lemma_count_true_grows(flags: Seq<bool>, i: int, j: int)
    requires
        0 <= i < j <= flags.len(),
        flags[i],
    ensures
        count_true(flags.take(i)) + 1 <= count_true(flags.take(j)),
    decreases j - i,
{
    if j == i + 1 {
        assert(flags.take(j).drop_last() =~= flags.take(i));
    } else {
        lemma_count_true_grows(flags, i, j - 1);
        assert(flags.take(j).drop_last() =~= flags.take(j - 1));
    }
}

/// A recording lists its recorded calls in call order: when each call in turn either
/// left the recorded steps as they were or appended one step that `is_step[i]`
/// describes, starting from none, the steps are the appended ones, that of call `i`
/// at the number of recording calls before it.
pub proof fn lemma_recording_in_order(
    logs: Seq<Seq<ScriptStep>>,
    is_step: Seq<spec_fn(ScriptStep) -> bool>,
    records: Seq<bool>,
)
    requires
        logs.len() == records.len() + 1,
        is_step.len() == records.len(),
        logs[0].len() == 0,
        forall|i: int|
            0 <= i < records.len() ==> (#[trigger] records[i] ==> recorded(logs[i], logs[i + 1], is_step[i])),
        forall|i: int| 0 <= i < records.len() ==> (!#[trigger] records[i] ==> logs[i + 1] == logs[i]),
    ensures
        logs.last().len() == count_true(records),
        forall|i: int|
            0 <= i < records.len() && #[trigger] records[i] ==> (is_step[i])(
                logs.last()[count_true(records.take(i)) as int],
            ),
    decreases records.len(),
{
    if records.len() > 0 {
        let k = records.len() - 1;
        lemma_recording_in_order(logs.drop_last(), is_step.drop_last(), records.drop_last());
        assert(records.take(k) =~= records.drop_last());
        assert(logs.drop_last().last() == logs[k]);
        let before = logs[k];
        let after = logs.last();
        assert forall|i: int| 0 <= i < records.len() && #[trigger] records[i] implies (is_step[i])(
            after[count_true(records.take(i)) as int],
        ) by {
            if i < k {
                assert(records.drop_last()[i] == records[i]);
                assert(is_step.drop_last()[i] == is_step[i]);
                assert(records.drop_last().take(i) =~= records.take(i));
                lemma_count_true_grows(records, i, k);
                let idx = count_true(records.take(i)) as int;
                if records[k] {
                    assert(after.take(before.len() as int)[idx] == after[idx]);
                }
            }
        }
    }
}

} // verus!
