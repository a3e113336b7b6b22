use crate::address::opt_text;
use crate::kind::{kind_of_label, InstrumentKind};
use crate::text::{
    ascii_lower, ascii_upper, is_ascii_text, spec_to_lowercase, spec_to_uppercase, to_lowercase,
    to_uppercase, trim, trim_str,
};
use crate::transport::clone_text;
use vstd::prelude::*;

verus! {

/// USB vendor/product hint from the registry.
#[derive(Debug, Clone)]
pub struct UsbHint {
    pub manufacturer: Option<String>,
    pub model: Option<String>,
    pub kinds: Vec<InstrumentKind>,
}

/// The abstract content of a [`UsbHint`].
pub struct UsbHintModel {
    pub manufacturer: Option<Seq<char>>,
    pub model: Option<Seq<char>>,
    pub kinds: Seq<InstrumentKind>,
}

impl View for UsbHint {
    type V = UsbHintModel;

    open spec fn view(&self) -> UsbHintModel {
        UsbHintModel {
            manufacturer: opt_text(self.manufacturer),
            model: opt_text(self.model),
            kinds: self.kinds@,
        }
    }
}

/// A model key with its kinds.
#[derive(Debug, Clone)]
pub struct KindEntry {
    pub key: String,
    pub kinds: Vec<InstrumentKind>,
}

/// A USB vendor/product pair with its hint.
#[derive(Debug, Clone)]
pub struct UsbEntry {
    pub vid: String,
    pub pid: String,
    pub hint: UsbHint,
}

/// The map that a list of entries stands for: a later entry for a key replaces an
/// earlier one.
pub open spec fn kind_map(entries: Seq<KindEntry>) -> Map<Seq<char>, Seq<InstrumentKind>>
    decreases entries.len(),
{
    if entries.len() == 0 {
        Map::empty()
    } else {
        kind_map(entries.drop_last()).insert(entries.last().key@, entries.last().kinds@)
    }
}

pub open spec fn usb_map(entries: Seq<UsbEntry>) -> Map<(Seq<char>, Seq<char>), UsbHintModel>
    decreases entries.len(),
{
    if entries.len() == 0 {
        Map::empty()
    } else {
        usb_map(entries.drop_last()).insert(
            (entries.last().vid@, entries.last().pid@),
            entries.last().hint@,
        )
    }
}

/// The abstract content of a [`ModelRegistry`].
pub struct RegistryModel {
    pub by_model: Map<Seq<char>, Seq<InstrumentKind>>,
    pub by_usb: Map<(Seq<char>, Seq<char>), UsbHintModel>,
    pub runtime: Map<Seq<char>, Seq<InstrumentKind>>,
}

/// IVI-registry-inspired model → kinds lookup (hints only).
///
/// The entries are kept in vectors, newest last, and read as maps (see the view):
/// with text keys, a `HashMap` gives a verifier nothing to prove lookups by, while a
/// vector searched from the newest entry is proved to act as the map it stands for.
#[derive(Debug, Clone)]
pub struct ModelRegistry {
    by_model: Vec<KindEntry>,
    by_usb: Vec<UsbEntry>,
    runtime: Vec<KindEntry>,
}

impl View for ModelRegistry {
    type V = RegistryModel;

    closed spec fn view(&self) -> RegistryModel {
        RegistryModel {
            by_model: kind_map(self.by_model@),
            by_usb: usb_map(self.by_usb@),
            runtime: kind_map(self.runtime@),
        }
    }
}

/// The key under which a manufacturer and model are filed: both trimmed and
/// lower-cased, joined by `|`.
pub open spec fn model_key(manufacturer: Seq<char>, model: Seq<char>) -> Seq<char> {
    spec_to_lowercase(trim(manufacturer)) + "|"@ + spec_to_lowercase(trim(model))
}

/// `model_key` of ASCII text: both parts trimmed and their ASCII letters lower-cased.
pub open spec fn ascii_model_key(manufacturer: Seq<char>, model: Seq<char>) -> Seq<char> {
    ascii_lower(trim(manufacturer)) + "|"@ + ascii_lower(trim(model))
}

/// Both parts of an ASCII manufacturer and model are ASCII once trimmed.
pub open spec fn ascii_names(manufacturer: Seq<char>, model: Seq<char>) -> bool {
    is_ascii_text(trim(manufacturer)) && is_ascii_text(trim(model))
}

/// The key under which a USB vendor and product ID are filed: both upper-cased.
pub open spec fn usb_key(vid: Seq<char>, pid: Seq<char>) -> (Seq<char>, Seq<char>) {
    (spec_to_uppercase(vid), spec_to_uppercase(pid))
}

/// The kinds known for a model key: runtime entries first, then registry entries.
pub open spec fn lookup_kinds(r: RegistryModel, key: Seq<char>) -> Option<Seq<InstrumentKind>> {
    if r.runtime.contains_key(key) {
        Some(r.runtime[key])
    } else if r.by_model.contains_key(key) {
        Some(r.by_model[key])
    } else {
        None
    }
}

/// The kinds that a list of labels names, unknown labels skipped.
pub open spec fn kinds_of_labels(labels: Seq<Seq<char>>) -> Seq<InstrumentKind>
    decreases labels.len(),
{
    if labels.len() == 0 {
        Seq::empty()
    } else {
        let rest = kinds_of_labels(labels.drop_last());
        match kind_of_label(labels.last()) {
            Some(k) => rest.push(k),
            None => rest,
        }
    }
}

/// `m` with the entries of `other` added where `m` has none.
pub open spec fn union_keep_first<K, V>(m: Map<K, V>, other: Map<K, V>) -> Map<K, V> {
    other.union_prefer_right(m)
}

proof fn lemma_kind_map_last(entries: Seq<KindEntry>, key: Seq<char>, i: int)
    requires
        0 <= i < entries.len(),
        entries[i].key@ == key,
        forall|j: int| i < j < entries.len() ==> #[trigger] entries[j].key@ != key,
    ensures
        kind_map(entries).contains_key(key),
        kind_map(entries)[key] == entries[i].kinds@,
    decreases entries.len(),
{
    if i < entries.len() - 1 {
        lemma_kind_map_last(entries.drop_last(), key, i);
    }
}

proof fn lemma_kind_map_absent(entries: Seq<KindEntry>, key: Seq<char>)
    requires
        forall|j: int| 0 <= j < entries.len() ==> #[trigger] entries[j].key@ != key,
    ensures
        !kind_map(entries).contains_key(key),
    decreases entries.len(),
{
    if entries.len() > 0 {
        lemma_kind_map_absent(entries.drop_last(), key);
    }
}

proof fn lemma_usb_map_last(entries: Seq<UsbEntry>, key: (Seq<char>, Seq<char>), i: int)
    requires
        0 <= i < entries.len(),
        (entries[i].vid@, entries[i].pid@) == key,
        forall|j: int| i < j < entries.len() ==> (#[trigger] entries[j].vid@, entries[j].pid@) != key,
    ensures
        usb_map(entries).contains_key(key),
        usb_map(entries)[key] == entries[i].hint@,
    decreases entries.len(),
{
    if i < entries.len() - 1 {
        lemma_usb_map_last(entries.drop_last(), key, i);
    }
}

proof fn lemma_usb_map_absent(entries: Seq<UsbEntry>, key: (Seq<char>, Seq<char>))
    requires
        forall|j: int| 0 <= j < entries.len() ==> (#[trigger] entries[j].vid@, entries[j].pid@) != key,
    ensures
        !usb_map(entries).contains_key(key),
    decreases entries.len(),
{
    if entries.len() > 0 {
        lemma_usb_map_absent(entries.drop_last(), key);
    }
}

fn text_eq(a: &str, b: &str) -> (r: bool)
    ensures
        r == (a@ == b@),
{
    let x = a.to_owned();
    let y = b.to_owned();
    x == y
}

fn copy_kinds(v: &Vec<InstrumentKind>) -> (r: Vec<InstrumentKind>)
    ensures
        r@ == v@,
{
    let mut out: Vec<InstrumentKind> = Vec::new();
    let mut i: usize = 0;
    while i < v.len()
        invariant
            i <= v@.len(),
            out@ == v@.take(i as int),
        decreases v@.len() - i,
    {
        out.push(v[i]);
        i = i + 1;
        assert(out@ =~= v@.take(i as int));
    }
    assert(v@.take(v@.len() as int) =~= v@);
    out
}

fn copy_hint(h: &UsbHint) -> (r: UsbHint)
    ensures
        r@ == h@,
{
    UsbHint {
        manufacturer: clone_text(&h.manufacturer),
        model: clone_text(&h.model),
        kinds: copy_kinds(&h.kinds),
    }
}

/// The index of the last entry filed under `key` among the first `end` entries.
fn find_kind_entry_before(entries: &Vec<KindEntry>, end: usize, key: &str) -> (r: Option<usize>)
    requires
        end <= entries@.len(),
    ensures
        match r {
            Some(i) => i < end && kind_map(entries@.take(end as int)).contains_key(key@)
                && kind_map(entries@.take(end as int))[key@] == entries@[i as int].kinds@,
            None => !kind_map(entries@.take(end as int)).contains_key(key@),
        },
{
    let ghost prefix = entries@.take(end as int);
    let mut i = end;
    while i > 0
        invariant
            i <= end <= entries@.len(),
            prefix == entries@.take(end as int),
            forall|j: int| i <= j < prefix.len() ==> #[trigger] prefix[j].key@ != key@,
        decreases i,
    {
        if text_eq(entries[i - 1].key.as_str(), key) {
            proof {
                assert(prefix[i - 1] == entries@[i - 1]);
                lemma_kind_map_last(prefix, key@, i - 1);
            }
            return Some(i - 1);
        }
        proof {
            assert(prefix[i - 1] == entries@[i - 1]);
        }
        i = i - 1;
    }
    proof {
        lemma_kind_map_absent(prefix, key@);
    }
    None
}

/// The index of the last entry filed under `key`.
fn find_kind_entry(entries: &Vec<KindEntry>, key: &str) -> (r: Option<usize>)
    ensures
        match r {
            Some(i) => i < entries@.len() && kind_map(entries@).contains_key(key@)
                && kind_map(entries@)[key@] == entries@[i as int].kinds@,
            None => !kind_map(entries@).contains_key(key@),
        },
{
    assert(entries@.take(entries@.len() as int) =~= entries@);
    find_kind_entry_before(entries, entries.len(), key)
}

/// The index of the last entry filed under a USB pair among the first `end` entries.
fn find_usb_entry_before(entries: &Vec<UsbEntry>, end: usize, vid: &str, pid: &str) -> (r: Option<
    usize,
>)
    requires
        end <= entries@.len(),
    ensures
        match r {
            Some(i) => i < end && usb_map(entries@.take(end as int)).contains_key((vid@, pid@))
                && usb_map(entries@.take(end as int))[(vid@, pid@)] == entries@[i as int].hint@,
            None => !usb_map(entries@.take(end as int)).contains_key((vid@, pid@)),
        },
{
    let ghost prefix = entries@.take(end as int);
    let mut i = end;
    while i > 0
        invariant
            i <= end <= entries@.len(),
            prefix == entries@.take(end as int),
            forall|j: int|
                i <= j < prefix.len() ==> (#[trigger] prefix[j].vid@, prefix[j].pid@) != (vid@, pid@),
        decreases i,
    {
        proof {
            assert(prefix[i - 1] == entries@[i - 1]);
        }
        if text_eq(entries[i - 1].vid.as_str(), vid) && text_eq(entries[i - 1].pid.as_str(), pid) {
            proof {
                lemma_usb_map_last(prefix, (vid@, pid@), i - 1);
            }
            return Some(i - 1);
        }
        i = i - 1;
    }
    proof {
        lemma_usb_map_absent(prefix, (vid@, pid@));
    }
    None
}

fn find_usb_entry(entries: &Vec<UsbEntry>, vid: &str, pid: &str) -> (r: Option<usize>)
    ensures
        match r {
            Some(i) => i < entries@.len() && usb_map(entries@).contains_key((vid@, pid@))
                && usb_map(entries@)[(vid@, pid@)] == entries@[i as int].hint@,
            None => !usb_map(entries@).contains_key((vid@, pid@)),
        },
{
    assert(entries@.take(entries@.len() as int) =~= entries@);
    find_usb_entry_before(entries, entries.len(), vid, pid)
}

/// The key for a manufacturer and model.
pub fn normalize_key(manufacturer: &str, model: &str) -> (r: String)
    ensures
        r@ == model_key(manufacturer@, model@),
        ascii_names(manufacturer@, model@) ==> model_key(manufacturer@, model@) == ascii_model_key(
            manufacturer@,
            model@,
        ),
{
    let m = trim_str(manufacturer);
    let mo = trim_str(model);
    let mut key = to_lowercase(m.as_str());
    let lower_model = to_lowercase(mo.as_str());
    key.append("|");
    key.append(lower_model.as_str());
    key
}

/// The kinds that the labels name, unknown labels skipped.
pub fn parse_kinds(labels: &[String]) -> (r: Vec<InstrumentKind>)
    ensures
        r@ == kinds_of_labels(labels@.map_values(|l: String| l@)),
{
    let ghost views = labels@.map_values(|l: String| l@);
    let mut out: Vec<InstrumentKind> = Vec::new();
    let mut i: usize = 0;
    while i < labels.len()
        invariant
            i <= labels@.len(),
            views == labels@.map_values(|l: String| l@),
            out@ == kinds_of_labels(views.take(i as int)),
        decreases labels@.len() - i,
    {
        proof {
            assert(views.take(i + 1).drop_last() =~= views.take(i as int));
            assert(views.take(i + 1).last() == labels@[i as int]@);
        }
        if let Some(k) = InstrumentKind::from_str_label(labels[i].as_str()) {
            out.push(k);
        }
        i = i + 1;
    }
    assert(views.take(labels@.len() as int) =~= views);
    out
}

impl ModelRegistry {
    /// A registry with no entries.
    pub fn new() -> (r: Self)
        ensures
            r@.by_model == Map::<Seq<char>, Seq<InstrumentKind>>::empty(),
            r@.by_usb == Map::<(Seq<char>, Seq<char>), UsbHintModel>::empty(),
            r@.runtime == Map::<Seq<char>, Seq<InstrumentKind>>::empty(),
    {
        ModelRegistry { by_model: Vec::new(), by_usb: Vec::new(), runtime: Vec::new() }
    }

    /// Files `kinds` for a manufacturer and model, replacing what was filed there.
    pub fn add_model_entry(&mut self, manufacturer: &str, model: &str, kinds: Vec<InstrumentKind>)
        ensures
            final(self)@.by_model == old(self)@.by_model.insert(model_key(manufacturer@, model@), kinds@),
            final(self)@.by_usb == old(self)@.by_usb,
            final(self)@.runtime == old(self)@.runtime,
            ascii_names(manufacturer@, model@) ==> model_key(manufacturer@, model@) == ascii_model_key(
                manufacturer@,
                model@,
            ),
    {
        let key = normalize_key(manufacturer, model);
        self.by_model.push(KindEntry { key, kinds });
        proof {
            assert(self.by_model@.drop_last() =~= old(self).by_model@);
        }
    }

    /// Files a hint for a USB vendor and product ID, replacing what was filed there.
    pub fn add_usb_entry(&mut self, vid: &str, pid: &str, hint: UsbHint)
        ensures
            final(self)@.by_usb == old(self)@.by_usb.insert(usb_key(vid@, pid@), hint@),
            final(self)@.by_model == old(self)@.by_model,
            final(self)@.runtime == old(self)@.runtime,
            is_ascii_text(vid@) && is_ascii_text(pid@) ==> usb_key(vid@, pid@) == (
            ascii_upper(vid@),
            ascii_upper(pid@),
            ),
    {
        let v = to_uppercase(vid);
        let p = to_uppercase(pid);
        self.by_usb.push(UsbEntry { vid: v, pid: p, hint });
        proof {
            assert(self.by_usb@.drop_last() =~= old(self).by_usb@);
        }
    }

    /// Adds the entries of `other`: registry entries only where this registry has none
    /// for the key, runtime entries replacing this registry's.
    pub fn merge(&mut self, other: &Self)
        ensures
            final(self)@.by_model == union_keep_first(old(self)@.by_model, other@.by_model),
            final(self)@.by_usb == union_keep_first(old(self)@.by_usb, other@.by_usb),
            final(self)@.runtime == old(self)@.runtime.union_prefer_right(other@.runtime),
    {
        let n0 = self.by_model.len();
        let mut i: usize = 0;
        while i < other.by_model.len()
            invariant
                i <= other.by_model@.len(),
                n0 == old(self).by_model@.len(),
                n0 <= self.by_model@.len(),
                self.by_model@.take(n0 as int) == old(self).by_model@,
                kind_map(self.by_model@) == union_keep_first(
                    kind_map(old(self).by_model@),
                    kind_map(other.by_model@.take(i as int)),
                ),
                self.by_usb@ == old(self).by_usb@,
                self.runtime@ == old(self).runtime@,
            decreases other.by_model@.len() - i,
        {
            let e = &other.by_model[i];
            let ghost prev = self.by_model@;
            proof {
                assert(other.by_model@.take(i + 1).drop_last() =~= other.by_model@.take(i as int));
                assert(other.by_model@.take(i + 1).last() == *e);
            }
            if find_kind_entry_before(&self.by_model, n0, e.key.as_str()).is_none() {
                self.by_model.push(KindEntry { key: e.key.clone(), kinds: copy_kinds(&e.kinds) });
                proof {
                    assert(self.by_model@.drop_last() =~= prev);
                    assert(self.by_model@.take(n0 as int) =~= prev.take(n0 as int));
                    assert(kind_map(self.by_model@) =~= union_keep_first(
                        kind_map(old(self).by_model@),
                        kind_map(other.by_model@.take(i + 1)),
                    ));
                }
            } else {
                proof {
                    assert(kind_map(self.by_model@) =~= union_keep_first(
                        kind_map(old(self).by_model@),
                        kind_map(other.by_model@.take(i + 1)),
                    ));
                }
            }
            i = i + 1;
        }
        assert(other.by_model@.take(other.by_model@.len() as int) =~= other.by_model@);
        let u0 = self.by_usb.len();
        let mut i: usize = 0;
        while i < other.by_usb.len()
            invariant
                i <= other.by_usb@.len(),
                u0 == old(self).by_usb@.len(),
                u0 <= self.by_usb@.len(),
                self.by_usb@.take(u0 as int) == old(self).by_usb@,
                kind_map(self.by_model@) == union_keep_first(
                    kind_map(old(self).by_model@),
                    kind_map(other.by_model@),
                ),
                usb_map(self.by_usb@) == union_keep_first(
                    usb_map(old(self).by_usb@),
                    usb_map(other.by_usb@.take(i as int)),
                ),
                self.runtime@ == old(self).runtime@,
            decreases other.by_usb@.len() - i,
        {
            let e = &other.by_usb[i];
            let ghost prev = self.by_usb@;
            proof {
                assert(other.by_usb@.take(i + 1).drop_last() =~= other.by_usb@.take(i as int));
                assert(other.by_usb@.take(i + 1).last() == *e);
            }
            if find_usb_entry_before(&self.by_usb, u0, e.vid.as_str(), e.pid.as_str()).is_none() {
                self.by_usb.push(
                    UsbEntry { vid: e.vid.clone(), pid: e.pid.clone(), hint: copy_hint(&e.hint) },
                );
                proof {
                    assert(self.by_usb@.drop_last() =~= prev);
                    assert(self.by_usb@.take(u0 as int) =~= prev.take(u0 as int));
                    assert(usb_map(self.by_usb@) =~= union_keep_first(
                        usb_map(old(self).by_usb@),
                        usb_map(other.by_usb@.take(i + 1)),
                    ));
                }
            } else {
                proof {
                    assert(usb_map(self.by_usb@) =~= union_keep_first(
                        usb_map(old(self).by_usb@),
                        usb_map(other.by_usb@.take(i + 1)),
                    ));
                }
            }
            i = i + 1;
        }
        assert(other.by_usb@.take(other.by_usb@.len() as int) =~= other.by_usb@);
        let mut i: usize = 0;
        while i < other.runtime.len()
            invariant
                i <= other.runtime@.len(),
                kind_map(self.by_model@) == union_keep_first(
                    kind_map(old(self).by_model@),
                    kind_map(other.by_model@),
                ),
                usb_map(self.by_usb@) == union_keep_first(
                    usb_map(old(self).by_usb@),
                    usb_map(other.by_usb@),
                ),
                kind_map(self.runtime@) == kind_map(old(self).runtime@).union_prefer_right(
                    kind_map(other.runtime@.take(i as int)),
                ),
            decreases other.runtime@.len() - i,
        {
            let e = &other.runtime[i];
            let ghost prev = self.runtime@;
            self.runtime.push(KindEntry { key: e.key.clone(), kinds: copy_kinds(&e.kinds) });
            proof {
                assert(other.runtime@.take(i + 1).drop_last() =~= other.runtime@.take(i as int));
                assert(other.runtime@.take(i + 1).last() == *e);
                assert(self.runtime@.drop_last() =~= prev);
                assert(kind_map(self.runtime@) =~= kind_map(old(self).runtime@).union_prefer_right(
                    kind_map(other.runtime@.take(i + 1)),
                ));
            }
            i = i + 1;
        }
        assert(other.runtime@.take(other.runtime@.len() as int) =~= other.runtime@);
    }

    /// Files `kinds` for a manufacturer and model at runtime; runtime entries take
    /// precedence in lookups.
    pub fn add_runtime(&mut self, manufacturer: &str, model: &str, kinds: Vec<InstrumentKind>)
        ensures
            final(self)@.runtime == old(self)@.runtime.insert(model_key(manufacturer@, model@), kinds@),
            final(self)@.by_model == old(self)@.by_model,
            final(self)@.by_usb == old(self)@.by_usb,
            ascii_names(manufacturer@, model@) ==> model_key(manufacturer@, model@) == ascii_model_key(
                manufacturer@,
                model@,
            ),
    {
        let key = normalize_key(manufacturer, model);
        self.runtime.push(KindEntry { key, kinds });
        proof {
            assert(self.runtime@.drop_last() =~= old(self).runtime@);
        }
    }

    /// The kinds known for a manufacturer and model (runtime entries first).
    pub fn lookup_model(&self, manufacturer: &str, model: &str) -> (r: Option<Vec<InstrumentKind>>)
        ensures
            match lookup_kinds(self@, model_key(manufacturer@, model@)) {
                Some(kinds) => r matches Some(v) && v@ == kinds,
                None => r is None,
            },
            ascii_names(manufacturer@, model@) ==> model_key(manufacturer@, model@) == ascii_model_key(
                manufacturer@,
                model@,
            ),
    {
        let key = normalize_key(manufacturer, model);
        match find_kind_entry(&self.runtime, key.as_str()) {
            Some(i) => Some(copy_kinds(&self.runtime[i].kinds)),
            None => match find_kind_entry(&self.by_model, key.as_str()) {
                Some(i) => Some(copy_kinds(&self.by_model[i].kinds)),
                None => None,
            },
        }
    }

    /// The hint filed for a USB vendor and product ID.
    pub fn lookup_usb(&self, vid: &str, pid: &str) -> (r: Option<UsbHint>)
        ensures
            match r {
                Some(h) => self@.by_usb.contains_key(usb_key(vid@, pid@)) && h@ == self@.by_usb[usb_key(vid@, pid@)],
                None => !self@.by_usb.contains_key(usb_key(vid@, pid@)),
            },
            is_ascii_text(vid@) && is_ascii_text(pid@) ==> usb_key(vid@, pid@) == (
            ascii_upper(vid@),
            ascii_upper(pid@),
            ),
    {
        let v = to_uppercase(vid);
        let p = to_uppercase(pid);
        match find_usb_entry(&self.by_usb, v.as_str(), p.as_str()) {
            Some(i) => Some(copy_hint(&self.by_usb[i].hint)),
            None => None,
        }
    }
}

impl ModelRegistry {
    /// The registry built into the library: a starter set of common instruments.
    pub fn embedded() -> (r: Self)
        ensures
            r@.by_model == Map::<Seq<char>, Seq<InstrumentKind>>::empty().insert(
                model_key("Keysight Technologies"@, "34401A"@),
                seq![InstrumentKind::Dmm],
            ).insert(model_key("Keithley Instruments"@, "DMM6500"@), seq![InstrumentKind::Dmm]).insert(
                model_key("Keysight Technologies"@, "N6705C"@),
                seq![InstrumentKind::DcPowerSupply],
            ).insert(
                model_key("Rigol Technologies"@, "DS1054Z"@),
                seq![InstrumentKind::Oscilloscope],
            ).insert(model_key("Keysight Technologies"@, "34970A"@), seq![InstrumentKind::Switch]).insert(
                model_key("Keysight Technologies"@, "53230A"@),
                seq![InstrumentKind::Counter],
            ),
            r@.by_usb == Map::<(Seq<char>, Seq<char>), UsbHintModel>::empty().insert(
                usb_key("0957"@, "0607"@),
                UsbHintModel {
                    manufacturer: Some("Agilent Technologies"@),
                    model: Some("34410A"@),
                    kinds: seq![InstrumentKind::Dmm],
                },
            ),
            r@.runtime == Map::<Seq<char>, Seq<InstrumentKind>>::empty(),
    {
        let mut r = ModelRegistry::new();
        let dmm = vec![InstrumentKind::Dmm];
        assert(dmm@ =~= seq![InstrumentKind::Dmm]);
        r.add_model_entry("Keysight Technologies", "34401A", dmm);
        let dmm = vec![InstrumentKind::Dmm];
        assert(dmm@ =~= seq![InstrumentKind::Dmm]);
        r.add_model_entry("Keithley Instruments", "DMM6500", dmm);
        let psu = vec![InstrumentKind::DcPowerSupply];
        assert(psu@ =~= seq![InstrumentKind::DcPowerSupply]);
        r.add_model_entry("Keysight Technologies", "N6705C", psu);
        let scope = vec![InstrumentKind::Oscilloscope];
        assert(scope@ =~= seq![InstrumentKind::Oscilloscope]);
        r.add_model_entry("Rigol Technologies", "DS1054Z", scope);
        let switch = vec![InstrumentKind::Switch];
        assert(switch@ =~= seq![InstrumentKind::Switch]);
        r.add_model_entry("Keysight Technologies", "34970A", switch);
        let counter = vec![InstrumentKind::Counter];
        assert(counter@ =~= seq![InstrumentKind::Counter]);
        r.add_model_entry("Keysight Technologies", "53230A", counter);
        let dmm = vec![InstrumentKind::Dmm];
        assert(dmm@ =~= seq![InstrumentKind::Dmm]);
        let hint = UsbHint {
            manufacturer: Some("Agilent Technologies".to_owned()),
            model: Some("34410A".to_owned()),
            kinds: dmm,
        };
        assert(hint@ == (UsbHintModel {
            manufacturer: Some("Agilent Technologies"@),
            model: Some("34410A"@),
            kinds: seq![InstrumentKind::Dmm],
        }));
        r.add_usb_entry("0957", "0607", hint);
        r
    }
}

impl Default for ModelRegistry {
    fn default() -> (r: Self)
        ensures
            r@.by_model == Map::<Seq<char>, Seq<InstrumentKind>>::empty(),
            r@.by_usb == Map::<(Seq<char>, Seq<char>), UsbHintModel>::empty(),
            r@.runtime == Map::<Seq<char>, Seq<InstrumentKind>>::empty(),
    {
        ModelRegistry::new()
    }
}

/// What is filed at runtime is what a lookup of the same manufacturer and model
/// returns, whatever else the registry holds.
pub proof fn lemma_runtime_read_after_write(
    r: RegistryModel,
    manufacturer: Seq<char>,
    model: Seq<char>,
    kinds: Seq<InstrumentKind>,
)
    ensures
        lookup_kinds(
            RegistryModel {
                runtime: r.runtime.insert(model_key(manufacturer, model), kinds),
                ..r
            },
            model_key(manufacturer, model),
        ) == Some(kinds),
{
}

/// Lookups ignore letter case and surrounding whitespace: names that trim and
/// lower-case alike find the same kinds.
pub proof fn lemma_lookup_case_insensitive(
    r: RegistryModel,
    m1: Seq<char>,
    model1: Seq<char>,
    m2: Seq<char>,
    model2: Seq<char>,
)
    requires
        spec_to_lowercase(trim(m1)) == spec_to_lowercase(trim(m2)),
        spec_to_lowercase(trim(model1)) == spec_to_lowercase(trim(model2)),
    ensures
        lookup_kinds(r, model_key(m1, model1)) == lookup_kinds(r, model_key(m2, model2)),
{
}

} // verus!
