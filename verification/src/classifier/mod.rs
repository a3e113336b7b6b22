pub mod merge;
pub mod probes;

pub use merge::{merge_classifications, ClassifiedKind, ClassifySource};
pub mod policy;

pub use policy::{classify_deep, classify_with_policy};

use crate::address::{opt_text, ResourceAddress};
use crate::identity::{device_id_text, DeviceId, DeviceIdentity, Idn};
use crate::kind::InstrumentKind;
use crate::registry::{lookup_kinds, model_key, usb_key, ModelRegistry, RegistryModel, UsbHintModel};
use crate::transport::{clone_text, TransportIdentity};
use vstd::prelude::*;

verus! {

/// A discovered device in the catalog.
#[derive(Debug, Clone)]
pub struct DiscoveredDevice {
    pub address: ResourceAddress,
    pub identity: DeviceIdentity,
    pub supported_kinds: Vec<InstrumentKind>,
    pub classification: Vec<ClassifiedKind>,
    pub reachable: bool,
    pub error: Option<String>,
}

impl DiscoveredDevice {
    /// Returns a stable identity for instrument replacement workflows.
    pub fn device_id(&self) -> (r: DeviceId)
        ensures
            r.0@ == device_id_text(self.identity, self.address.raw@),
    {
        DeviceId::from_identity(&self.identity, self.address.raw.as_str())
    }
}

/// Entries from the model registry: each kind with the given confidence.
pub open spec fn registry_layer(kinds: Seq<InstrumentKind>, confidence: u8) -> Seq<ClassifiedKind> {
    kinds.map_values(
        |k: InstrumentKind|
            ClassifiedKind { kind: k, confidence, source: ClassifySource::ModelRegistry },
    )
}

/// The registry hint filed for the USB vendor and product IDs of an address.
pub open spec fn usb_hint_for(address: ResourceAddress, registry: RegistryModel) -> Option<UsbHintModel> {
    match (address.components@.vid, address.components@.pid) {
        (Some(vid), Some(pid)) => if registry.by_usb.contains_key(usb_key(vid, pid)) {
            Some(registry.by_usb[usb_key(vid, pid)])
        } else {
            None
        },
        _ => None,
    }
}

/// `Unknown` with a confidence and source, alone.
pub open spec fn unknown_alone(confidence: u8, source: ClassifySource) -> Seq<ClassifiedKind> {
    seq![ClassifiedKind { kind: InstrumentKind::Unknown, confidence, source }]
}

/// The classification layer of an address: the kinds of its USB registry hint with
/// confidence 40, or else `Unknown` with confidence 10 from the address alone.
pub open spec fn address_layer(address: ResourceAddress, registry: RegistryModel) -> Seq<ClassifiedKind> {
    let found = match usb_hint_for(address, registry) {
        Some(h) => registry_layer(h.kinds, 40),
        None => Seq::empty(),
    };
    if found.len() == 0 {
        unknown_alone(10, ClassifySource::ResourceParse)
    } else {
        found
    }
}

/// The classification layer of transport hints: the registry kinds of the hinted
/// manufacturer and model with confidence 45, or else, when the backend reported a
/// manufacturer ID, `Unknown` with confidence 15.
pub open spec fn hint_layer(hint: TransportIdentity, registry: RegistryModel) -> Seq<ClassifiedKind> {
    let found = match (hint.manufacturer, hint.model) {
        (Some(m), Some(model)) => match lookup_kinds(registry, model_key(m@, model@)) {
            Some(kinds) => registry_layer(kinds, 45),
            None => Seq::empty(),
        },
        _ => Seq::empty(),
    };
    if found.len() == 0 && hint.manf_id is Some {
        unknown_alone(15, ClassifySource::VisaAttributes)
    } else {
        found
    }
}

/// The classification layer of an `*IDN?` reply: the registry kinds of its
/// manufacturer and model with confidence 60, then `Unknown` with confidence 30.
pub open spec fn identity_layer(idn: Idn, registry: RegistryModel) -> Seq<ClassifiedKind> {
    let found = match lookup_kinds(registry, model_key(idn.manufacturer@, idn.model@)) {
        Some(kinds) => registry_layer(kinds, 60),
        None => Seq::empty(),
    };
    found + unknown_alone(30, ClassifySource::ScpiIdn)
}

fn push_registry_kinds(out: &mut Vec<ClassifiedKind>, kinds: &Vec<InstrumentKind>, confidence: u8)
    ensures
        final(out)@ == old(out)@ + registry_layer(kinds@, confidence),
{
    let ghost start = out@;
    let mut i: usize = 0;
    while i < kinds.len()
        invariant
            i <= kinds@.len(),
            out@ == start + registry_layer(kinds@.take(i as int), confidence),
        decreases kinds@.len() - i,
    {
        out.push(
            ClassifiedKind { kind: kinds[i], confidence, source: ClassifySource::ModelRegistry },
        );
        i = i + 1;
        assert(out@ =~= start + registry_layer(kinds@.take(i as int), confidence));
    }
    assert(kinds@.take(kinds@.len() as int) =~= kinds@);
}

/// Classifies kinds from a parsed resource address (layer 1): a USB address whose
/// vendor and product IDs the registry knows gives the hinted manufacturer, model and
/// kinds; the serial comes from the address.
pub fn classify_from_address(address: &ResourceAddress, registry: &ModelRegistry) -> (r: (
    DeviceIdentity,
    Vec<ClassifiedKind>,
))
    ensures
        r.1@ == address_layer(*address, registry@),
        match usb_hint_for(*address, registry@) {
            Some(h) => opt_text(r.0.manufacturer) == h.manufacturer && opt_text(r.0.model)
                == h.model,
            None => r.0.manufacturer is None && r.0.model is None,
        },
        opt_text(r.0.serial) == address.components@.serial,
        r.0.firmware is None,
        r.0.options is None,
{
    let mut identity = DeviceIdentity::unknown();
    let mut kinds: Vec<ClassifiedKind> = Vec::new();
    if let (Some(vid), Some(pid)) = (&address.components.vid, &address.components.pid) {
        if let Some(hint) = registry.lookup_usb(vid.as_str(), pid.as_str()) {
            identity.manufacturer = clone_text(&hint.manufacturer);
            identity.model = clone_text(&hint.model);
            push_registry_kinds(&mut kinds, &hint.kinds, 40);
            assert(kinds@ =~= registry_layer(hint.kinds@, 40));
        } else {
            assert(kinds@ =~= Seq::<ClassifiedKind>::empty());
        }
    }
    if identity.serial.is_none() {
        identity.serial = clone_text(&address.components.serial);
    }
    if kinds.len() == 0 {
        kinds.push(
            ClassifiedKind {
                kind: InstrumentKind::Unknown,
                confidence: 10,
                source: ClassifySource::ResourceParse,
            },
        );
        assert(kinds@ =~= unknown_alone(10, ClassifySource::ResourceParse));
    }
    (identity, kinds)
}

/// Classifies kinds from transport identity hints (layer 2).
pub fn classify_from_transport_hint(hint: &TransportIdentity, registry: &ModelRegistry) -> (r: (
    DeviceIdentity,
    Vec<ClassifiedKind>,
))
    ensures
        r.1@ == hint_layer(*hint, registry@),
        opt_text(r.0.manufacturer) == opt_text(hint.manufacturer),
        opt_text(r.0.model) == opt_text(hint.model),
        opt_text(r.0.serial) == opt_text(hint.serial),
        r.0.firmware is None,
        r.0.options is None,
{
    let identity = DeviceIdentity {
        manufacturer: clone_text(&hint.manufacturer),
        model: clone_text(&hint.model),
        serial: clone_text(&hint.serial),
        firmware: None,
        options: None,
    };
    let mut kinds: Vec<ClassifiedKind> = Vec::new();
    if let (Some(m), Some(model)) = (&hint.manufacturer, &hint.model) {
        if let Some(registry_kinds) = registry.lookup_model(m.as_str(), model.as_str()) {
            push_registry_kinds(&mut kinds, &registry_kinds, 45);
            assert(kinds@ =~= registry_layer(registry_kinds@, 45));
        } else {
            assert(kinds@ =~= Seq::<ClassifiedKind>::empty());
        }
    } else {
        assert(kinds@ =~= Seq::<ClassifiedKind>::empty());
    }
    if kinds.len() == 0 && hint.manf_id.is_some() {
        kinds.push(
            ClassifiedKind {
                kind: InstrumentKind::Unknown,
                confidence: 15,
                source: ClassifySource::VisaAttributes,
            },
        );
        assert(kinds@ =~= unknown_alone(15, ClassifySource::VisaAttributes));
    }
    (identity, kinds)
}

/// Classifies kinds from SCPI `*IDN?` (layer 4).
pub fn classify_from_identity(idn: &Idn, registry: &ModelRegistry) -> (r: (
    DeviceIdentity,
    Vec<ClassifiedKind>,
))
    ensures
        r.1@ == identity_layer(*idn, registry@),
        opt_text(r.0.manufacturer) == Some(idn.manufacturer@),
        opt_text(r.0.model) == Some(idn.model@),
        opt_text(r.0.serial) == Some(idn.serial@),
        opt_text(r.0.firmware) == Some(idn.firmware@),
        r.0.options is None,
{
    let identity = DeviceIdentity::from_idn(idn);
    let mut kinds: Vec<ClassifiedKind> = Vec::new();
    if let Some(registry_kinds) = registry.lookup_model(idn.manufacturer.as_str(), idn.model.as_str()) {
        push_registry_kinds(&mut kinds, &registry_kinds, 60);
        assert(kinds@ =~= registry_layer(registry_kinds@, 60));
    } else {
        assert(kinds@ =~= Seq::<ClassifiedKind>::empty());
    }
    let ghost found = kinds@;
    kinds.push(
        ClassifiedKind {
            kind: InstrumentKind::Unknown,
            confidence: 30,
            source: ClassifySource::ScpiIdn,
        },
    );
    assert(kinds@ =~= found + unknown_alone(30, ClassifySource::ScpiIdn));
    (identity, kinds)
}

} // verus!
