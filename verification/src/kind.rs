use vstd::prelude::*;

verus! {

/// Instrument functional class (IVI-inspired).
#[derive(Debug, Clone, Copy, PartialEq, Eq, Structural, Hash)]
#[non_exhaustive]
pub enum InstrumentKind {
    Dmm,
    DcPowerSupply,
    FunctionGenerator,
    Oscilloscope,
    Switch,
    Counter,
    PowerMeter,
    SpectrumAnalyzer,
    Unknown,
}

/// The label of each kind, as written in registries and fixtures.
pub open spec fn kind_label(kind: InstrumentKind) -> Seq<char> {
    match kind {
        InstrumentKind::Dmm => "Dmm"@,
        InstrumentKind::DcPowerSupply => "DcPowerSupply"@,
        InstrumentKind::FunctionGenerator => "FunctionGenerator"@,
        InstrumentKind::Oscilloscope => "Oscilloscope"@,
        InstrumentKind::Switch => "Switch"@,
        InstrumentKind::Counter => "Counter"@,
        InstrumentKind::PowerMeter => "PowerMeter"@,
        InstrumentKind::SpectrumAnalyzer => "SpectrumAnalyzer"@,
        InstrumentKind::Unknown => "Unknown"@,
    }
}

/// The kind whose label is `label`, if any.
pub open spec fn kind_of_label(label: Seq<char>) -> Option<InstrumentKind> {
    if label == "Dmm"@ {
        Some(InstrumentKind::Dmm)
    } else if label == "DcPowerSupply"@ {
        Some(InstrumentKind::DcPowerSupply)
    } else if label == "FunctionGenerator"@ {
        Some(InstrumentKind::FunctionGenerator)
    } else if label == "Oscilloscope"@ {
        Some(InstrumentKind::Oscilloscope)
    } else if label == "Switch"@ {
        Some(InstrumentKind::Switch)
    } else if label == "Counter"@ {
        Some(InstrumentKind::Counter)
    } else if label == "PowerMeter"@ {
        Some(InstrumentKind::PowerMeter)
    } else if label == "SpectrumAnalyzer"@ {
        Some(InstrumentKind::SpectrumAnalyzer)
    } else if label == "Unknown"@ {
        Some(InstrumentKind::Unknown)
    } else {
        None
    }
}

fn str_eq(a: &str, b: &str) -> (r: bool)
    ensures
        r == (a@ == b@),
{
    let n = a.unicode_len();
    if n != b.unicode_len() {
        return false;
    }
    let mut i: usize = 0;
    while i < n
        invariant
            n == a@.len(),
            n == b@.len(),
            i <= n,
            forall|j: int| 0 <= j < i ==> a@[j] == b@[j],
        decreases n - i,
    {
        if a.get_char(i) != b.get_char(i) {
            return false;
        }
        i = i + 1;
    }
    assert(a@ =~= b@);
    true
}

impl InstrumentKind {
    /// Parses a kind label; unknown labels give `None`.
    pub fn from_str_label(label: &str) -> (r: Option<Self>)
        ensures
            r == kind_of_label(label@),
    {
        proof {
            reveal_strlit("Dmm");
            reveal_strlit("DcPowerSupply");
            reveal_strlit("FunctionGenerator");
            reveal_strlit("Oscilloscope");
            reveal_strlit("Switch");
            reveal_strlit("Counter");
            reveal_strlit("PowerMeter");
            reveal_strlit("SpectrumAnalyzer");
            reveal_strlit("Unknown");
        }
        if str_eq(label, "Dmm") {
            Some(Self::Dmm)
        } else if str_eq(label, "DcPowerSupply") {
            Some(Self::DcPowerSupply)
        } else if str_eq(label, "FunctionGenerator") {
            Some(Self::FunctionGenerator)
        } else if str_eq(label, "Oscilloscope") {
            Some(Self::Oscilloscope)
        } else if str_eq(label, "Switch") {
            Some(Self::Switch)
        } else if str_eq(label, "Counter") {
            Some(Self::Counter)
        } else if str_eq(label, "PowerMeter") {
            Some(Self::PowerMeter)
        } else if str_eq(label, "SpectrumAnalyzer") {
            Some(Self::SpectrumAnalyzer)
        } else if str_eq(label, "Unknown") {
            Some(Self::Unknown)
        } else {
            None
        }
    }

    /// The label of this kind.
    pub fn as_str(self) -> (r: &'static str)
        ensures
            r@ == kind_label(self),
    {
        match self {
            Self::Dmm => "Dmm",
            Self::DcPowerSupply => "DcPowerSupply",
            Self::FunctionGenerator => "FunctionGenerator",
            Self::Oscilloscope => "Oscilloscope",
            Self::Switch => "Switch",
            Self::Counter => "Counter",
            Self::PowerMeter => "PowerMeter",
            Self::SpectrumAnalyzer => "SpectrumAnalyzer",
            Self::Unknown => "Unknown",
        }
    }
}

/// Every kind reads back from its own label.
pub proof fn lemma_kind_label_round_trip(kind: InstrumentKind)
    ensures
        kind_of_label(kind_label(kind)) == Some(kind),
{
    reveal_strlit("Dmm");
    reveal_strlit("DcPowerSupply");
    reveal_strlit("FunctionGenerator");
    reveal_strlit("Oscilloscope");
    reveal_strlit("Switch");
    reveal_strlit("Counter");
    reveal_strlit("PowerMeter");
    reveal_strlit("SpectrumAnalyzer");
    reveal_strlit("Unknown");
    assert("Dmm"@.len() == 3);
    assert("DcPowerSupply"@.len() == 13);
    assert("FunctionGenerator"@.len() == 17);
    assert("Oscilloscope"@.len() == 12);
    assert("Switch"@.len() == 6);
    assert("Counter"@.len() == 7);
    assert("PowerMeter"@.len() == 10);
    assert("SpectrumAnalyzer"@.len() == 16);
    assert("Unknown"@.len() == 7);
    assert("Counter"@[0] != "Unknown"@[0]);
}

} // verus!
