use crate::kind::InstrumentKind;
use vstd::prelude::*;

verus! {

/// Source layer for a classification result.
#[derive(Debug, Clone, Copy, PartialEq, Eq, Structural)]
pub enum ClassifySource {
    ResourceParse,
    VisaAttributes,
    ModelRegistry,
    ScpiIdn,
    CapabilityProbe,
    UserOverride,
}

/// A classified instrument kind with confidence.
#[derive(Debug, Clone, Copy, PartialEq, Eq, Structural)]
pub struct ClassifiedKind {
    pub kind: InstrumentKind,
    pub confidence: u8,
    pub source: ClassifySource,
}

/// The confidence from which a kind counts as supported.
pub open spec fn supported_confidence() -> u8 {
    40
}

/// All entries of all layers, layer by layer, in order.
pub open spec fn flatten(layers: Seq<Seq<ClassifiedKind>>) -> Seq<ClassifiedKind>
    decreases layers.len(),
{
    if layers.len() == 0 {
        Seq::empty()
    } else {
        flatten(layers.drop_last()) + layers.last()
    }
}

/// Some entry reports `kind` with at least the supported confidence.
pub open spec fn reported_confidently(all: Seq<ClassifiedKind>, kind: InstrumentKind) -> bool {
    exists|i: int| 0 <= i < all.len() && #[trigger] all[i].kind == kind && all[i].confidence >= 40
}

/// The kinds in the order in which results list them (the order of their names).
pub open spec fn ranked_kinds() -> Seq<InstrumentKind> {
    seq![
        InstrumentKind::Counter,
        InstrumentKind::DcPowerSupply,
        InstrumentKind::Dmm,
        InstrumentKind::FunctionGenerator,
        InstrumentKind::Oscilloscope,
        InstrumentKind::PowerMeter,
        InstrumentKind::SpectrumAnalyzer,
        InstrumentKind::Switch,
        InstrumentKind::Unknown,
    ]
}

/// The kinds of `candidates`, in order, that some entry of `all` reports confidently,
/// `Unknown` excepted.
pub open spec fn confident_kinds(candidates: Seq<InstrumentKind>, all: Seq<ClassifiedKind>) -> Seq<
    InstrumentKind,
>
    decreases candidates.len(),
{
    if candidates.len() == 0 {
        Seq::empty()
    } else {
        let k = candidates.last();
        let rest = confident_kinds(candidates.drop_last(), all);
        if k != InstrumentKind::Unknown && reported_confidently(all, k) {
            rest.push(k)
        } else {
            rest
        }
    }
}

/// The supported kinds that merging reports for the entries `all`: the confidently
/// reported kinds in name order, or `Unknown` alone when there is none.
pub open spec fn supported_kinds(all: Seq<ClassifiedKind>) -> Seq<InstrumentKind> {
    let kinds = confident_kinds(ranked_kinds(), all);
    if kinds.len() == 0 {
        seq![InstrumentKind::Unknown]
    } else {
        kinds
    }
}

fn ranked_kind_list() -> (r: Vec<InstrumentKind>)
    ensures
        r@ == ranked_kinds(),
{
    let r = vec![
        InstrumentKind::Counter,
        InstrumentKind::DcPowerSupply,
        InstrumentKind::Dmm,
        InstrumentKind::FunctionGenerator,
        InstrumentKind::Oscilloscope,
        InstrumentKind::PowerMeter,
        InstrumentKind::SpectrumAnalyzer,
        InstrumentKind::Switch,
        InstrumentKind::Unknown,
    ];
    assert(r@ =~= ranked_kinds());
    r
}

fn has_confident_entry(all: &Vec<ClassifiedKind>, kind: InstrumentKind) -> (r: bool)
    ensures
        r == reported_confidently(all@, kind),
{
    let mut i: usize = 0;
    while i < all.len()
        invariant
            i <= all@.len(),
            forall|j: int| 0 <= j < i ==> !(#[trigger] all@[j].kind == kind && all@[j].confidence >= 40),
        decreases all@.len() - i,
    {
        if all[i].kind == kind && all[i].confidence >= 40 {
            return true;
        }
        i = i + 1;
    }
    false
}

/// Merges classification layers into final supported kinds.
///
/// A user override wins: its kinds are returned as given, each classified with full
/// confidence. Otherwise the result lists, in name order, each kind other than `Unknown`
/// that some entry reports with confidence of at least 40, or `Unknown` alone; and all
/// entries of all layers, in order. Each kind is checked in turn against the gathered
/// entries, in name order, rather than collected in a hash map, so that the result
/// is proved.
pub fn merge_classifications(
    layers: Vec<Vec<ClassifiedKind>>,
    user_override: Option<&[InstrumentKind]>,
) -> (r: (Vec<InstrumentKind>, Vec<ClassifiedKind>))
    ensures
        match user_override {
            Some(kinds) => {
                &&& r.0@ == kinds@
                &&& r.1@.len() == kinds@.len()
                &&& forall|i: int| 0 <= i < kinds@.len() ==> #[trigger] r.1@[i] == (ClassifiedKind {
                    kind: kinds@[i],
                    confidence: 100,
                    source: ClassifySource::UserOverride,
                })
            },
            None => {
                &&& r.1@ == flatten(layers@.map_values(|l: Vec<ClassifiedKind>| l@))
                &&& r.0@ == supported_kinds(r.1@)
            },
        },
{
    if let Some(kinds) = user_override {
        let mut classified: Vec<ClassifiedKind> = Vec::new();
        let mut supported: Vec<InstrumentKind> = Vec::new();
        let mut i: usize = 0;
        while i < kinds.len()
            invariant
                i <= kinds@.len(),
                supported@ == kinds@.take(i as int),
                classified@.len() == i,
                forall|j: int| 0 <= j < i ==> #[trigger] classified@[j] == (ClassifiedKind {
                    kind: kinds@[j],
                    confidence: 100,
                    source: ClassifySource::UserOverride,
                }),
            decreases kinds@.len() - i,
        {
            supported.push(kinds[i]);
            classified.push(
                ClassifiedKind { kind: kinds[i], confidence: 100, source: ClassifySource::UserOverride },
            );
            i = i + 1;
            assert(supported@ =~= kinds@.take(i as int));
        }
        assert(kinds@.take(kinds@.len() as int) =~= kinds@);
        return (supported, classified);
    }
    let ghost views = layers@.map_values(|l: Vec<ClassifiedKind>| l@);
    let mut all: Vec<ClassifiedKind> = Vec::new();
    let mut li: usize = 0;
    while li < layers.len()
        invariant
            li <= layers@.len(),
            views == layers@.map_values(|l: Vec<ClassifiedKind>| l@),
            all@ == flatten(views.take(li as int)),
        decreases layers@.len() - li,
    {
        let layer = &layers[li];
        let ghost before = all@;
        let mut j: usize = 0;
        while j < layer.len()
            invariant
                j <= layer@.len(),
                all@ == before + layer@.take(j as int),
            decreases layer@.len() - j,
        {
            all.push(layer[j]);
            j = j + 1;
            assert(all@ =~= before + layer@.take(j as int));
        }
        proof {
            assert(layer@.take(layer@.len() as int) =~= layer@);
            assert(views.take(li + 1).drop_last() =~= views.take(li as int));
            assert(views.take(li + 1).last() == layer@);
        }
        li = li + 1;
    }
    assert(views.take(layers@.len() as int) =~= views);
    let ranked = ranked_kind_list();
    let mut supported: Vec<InstrumentKind> = Vec::new();
    let mut k: usize = 0;
    while k < ranked.len()
        invariant
            k <= ranked@.len(),
            ranked@ == ranked_kinds(),
            supported@ == confident_kinds(ranked@.take(k as int), all@),
        decreases ranked@.len() - k,
    {
        let kind = ranked[k];
        proof {
            assert(ranked@.take(k + 1).drop_last() =~= ranked@.take(k as int));
            assert(ranked@.take(k + 1).last() == kind);
        }
        if kind != InstrumentKind::Unknown && has_confident_entry(&all, kind) {
            supported.push(kind);
        }
        k = k + 1;
    }
    assert(ranked@.take(ranked@.len() as int) =~= ranked@);
    if supported.len() == 0 {
        supported.push(InstrumentKind::Unknown);
        assert(supported@ =~= seq![InstrumentKind::Unknown]);
    }
    (supported, all)
}

proof fn lemma_confident_kinds_from(candidates: Seq<InstrumentKind>, all: Seq<ClassifiedKind>)
    ensures
        forall|i: int|
            0 <= i < confident_kinds(candidates, all).len() ==> {
                let k = #[trigger] confident_kinds(candidates, all)[i];
                &&& candidates.contains(k)
                &&& k != InstrumentKind::Unknown
                &&& reported_confidently(all, k)
            },
        confident_kinds(candidates, all).len() <= candidates.len(),
    decreases candidates.len(),
{
    if candidates.len() > 0 {
        let rest = candidates.drop_last();
        lemma_confident_kinds_from(rest, all);
        assert forall|i: int| 0 <= i < confident_kinds(candidates, all).len() implies {
            let k = #[trigger] confident_kinds(candidates, all)[i];
            &&& candidates.contains(k)
            &&& k != InstrumentKind::Unknown
            &&& reported_confidently(all, k)
        } by {
            let k = confident_kinds(candidates, all)[i];
            if i < confident_kinds(rest, all).len() {
                assert(k == confident_kinds(rest, all)[i]);
                let w = choose|w: int| 0 <= w < rest.len() && rest[w] == k;
                assert(candidates[w] == k);
            } else {
                assert(k == candidates.last());
                assert(candidates[candidates.len() - 1] == k);
            }
        }
    }
}

/// Merged results are never empty, and `Unknown` is reported only alone: when no
/// layer confidently reports a real kind.
pub proof fn lemma_supported_nonempty_unknown_alone(all: Seq<ClassifiedKind>)
    ensures
        supported_kinds(all).len() >= 1,
        supported_kinds(all).contains(InstrumentKind::Unknown) ==> supported_kinds(all)
            == seq![InstrumentKind::Unknown],
        forall|i: int|
            0 <= i < supported_kinds(all).len() && #[trigger] supported_kinds(all)[i]
                != InstrumentKind::Unknown ==> reported_confidently(all, supported_kinds(all)[i]),
{
    lemma_confident_kinds_from(ranked_kinds(), all);
    let kinds = confident_kinds(ranked_kinds(), all);
    if kinds.len() > 0 && kinds.contains(InstrumentKind::Unknown) {
        let w = choose|w: int| 0 <= w < kinds.len() && kinds[w] == InstrumentKind::Unknown;
        assert(kinds[w] != InstrumentKind::Unknown);
    }
}


proof fn lemma_confident_kinds_keeps(candidates: Seq<InstrumentKind>, all: Seq<ClassifiedKind>, kind: InstrumentKind)
    requires
        candidates.contains(kind),
        kind != InstrumentKind::Unknown,
        reported_confidently(all, kind),
    ensures
        confident_kinds(candidates, all).contains(kind),
    decreases candidates.len(),
{
    let k = candidates.last();
    let rest = confident_kinds(candidates.drop_last(), all);
    if k == kind {
        assert(confident_kinds(candidates, all) == rest.push(k));
        assert(rest.push(k)[rest.len() as int] == kind);
    } else {
        let j = choose|j: int| 0 <= j < candidates.len() && candidates[j] == kind;
        assert(j < candidates.len() - 1);
        assert(candidates.drop_last()[j] == kind);
        lemma_confident_kinds_keeps(candidates.drop_last(), all, kind);
        let w = choose|w: int| 0 <= w < rest.len() && rest[w] == kind;
        if k != InstrumentKind::Unknown && reported_confidently(all, k) {
            assert(rest.push(k)[w] == kind);
        }
    }
}

/// Merging misses no kind: every kind other than `Unknown` that some entry of some
/// layer reports with confidence 40 or more is among the supported kinds.
pub proof fn lemma_supported_complete(all: Seq<ClassifiedKind>, kind: InstrumentKind, i: int)
    requires
        kind != InstrumentKind::Unknown,
        0 <= i < all.len(),
        all[i].kind == kind,
        all[i].confidence >= 40,
    ensures
        supported_kinds(all).contains(kind),
{
    let ranked = ranked_kinds();
    let at: int = match kind {
        InstrumentKind::Counter => 0,
        InstrumentKind::DcPowerSupply => 1,
        InstrumentKind::Dmm => 2,
        InstrumentKind::FunctionGenerator => 3,
        InstrumentKind::Oscilloscope => 4,
        InstrumentKind::PowerMeter => 5,
        InstrumentKind::SpectrumAnalyzer => 6,
        InstrumentKind::Switch => 7,
        InstrumentKind::Unknown => 8,
    };
    assert(ranked[at] == kind);
    assert(reported_confidently(all, kind));
    lemma_confident_kinds_keeps(ranked, all, kind);
}


/// The place of a kind in the order of kind names (`Counter` < `DcPowerSupply` <
/// `Dmm` < `FunctionGenerator` < `Oscilloscope` < `PowerMeter` < `SpectrumAnalyzer` <
/// `Switch` < `Unknown`).
pub open spec fn name_rank(kind: InstrumentKind) -> int {
    match kind {
        InstrumentKind::Counter => 0,
        InstrumentKind::DcPowerSupply => 1,
        InstrumentKind::Dmm => 2,
        InstrumentKind::FunctionGenerator => 3,
        InstrumentKind::Oscilloscope => 4,
        InstrumentKind::PowerMeter => 5,
        InstrumentKind::SpectrumAnalyzer => 6,
        InstrumentKind::Switch => 7,
        InstrumentKind::Unknown => 8,
    }
}

/// The kinds of `s` come in strictly increasing name order.
pub open spec fn in_name_order(s: Seq<InstrumentKind>) -> bool {
    forall|i: int, j: int| 0 <= i < j < s.len() ==> name_rank(#[trigger] s[i]) < name_rank(#[trigger] s[j])
}

proof fn lemma_confident_kinds_ordered(candidates: Seq<InstrumentKind>, all: Seq<ClassifiedKind>)
    requires
        in_name_order(candidates),
    ensures
        in_name_order(confident_kinds(candidates, all)),
    decreases candidates.len(),
{
    if candidates.len() > 0 {
        let c = candidates.drop_last();
        assert forall|i: int, j: int| 0 <= i < j < c.len() implies name_rank(#[trigger] c[i]) < name_rank(
            #[trigger] c[j],
        ) by {
            assert(c[i] == candidates[i] && c[j] == candidates[j]);
        }
        lemma_confident_kinds_ordered(c, all);
        lemma_confident_kinds_from(c, all);
        let rest = confident_kinds(c, all);
        let k = candidates.last();
        if k != InstrumentKind::Unknown && reported_confidently(all, k) {
            let t = rest.push(k);
            assert forall|i: int, j: int| 0 <= i < j < t.len() implies name_rank(#[trigger] t[i]) < name_rank(
                #[trigger] t[j],
            ) by {
                if j == rest.len() {
                    assert(c.contains(rest[i]));
                    let w = choose|w: int| 0 <= w < c.len() && c[w] == rest[i];
                    assert(candidates[w] == c[w]);
                    assert(candidates[candidates.len() - 1] == k);
                } else {
                    assert(t[i] == rest[i] && t[j] == rest[j]);
                }
            }
        }
    }
}

/// Merged kinds come sorted by name, each at most once.
pub proof fn lemma_supported_in_name_order(all: Seq<ClassifiedKind>)
    ensures
        in_name_order(supported_kinds(all)),
{
    let r = ranked_kinds();
    assert forall|i: int, j: int| 0 <= i < j < r.len() implies name_rank(#[trigger] r[i]) < name_rank(
        #[trigger] r[j],
    ) by {}
    lemma_confident_kinds_ordered(r, all);
}

} // verus!
