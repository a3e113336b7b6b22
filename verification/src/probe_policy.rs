//! How far discovery may go in probing an instrument.
use vstd::prelude::*;

verus! {

/// How aggressively discovery probes instrument capabilities.
#[derive(Debug, Clone, Copy, PartialEq, Eq, Structural)]
#[non_exhaustive]
pub enum ProbePolicy {
    /// Registry, VISA attributes, and *IDN? only — no capability queries.
    Disabled,
    /// Benign read-only state queries (default); does not trigger measurements or change outputs.
    ReadOnly,
    /// Includes acquisition-triggering probes such as `:MEAS:VOLT:DC?`.
    Full,
}

impl Default for ProbePolicy {
    /// Read-only probing.
    fn default() -> (r: Self)
        ensures
            r == ProbePolicy::ReadOnly,
    {
        ProbePolicy::ReadOnly
    }
}

} // verus!
