use instrument_core::address::ResourceAddress;
use instrument_core::classifier::probes::{
    counter_readonly_commands, probe_any, probe_timeout, scope_readonly_commands,
    switch_readonly_commands,
};
use instrument_core::classifier::{
    classify_from_address, classify_from_identity, classify_from_transport_hint,
    classify_with_policy, merge_classifications, ClassifiedKind, ClassifySource,
};
use instrument_core::connect::ConnectOptions;
use instrument_core::identity::Idn;
use instrument_core::kind::InstrumentKind;
use instrument_core::mock::{MockTransport, ScriptStep};
use instrument_core::probe_policy::ProbePolicy;
use instrument_core::registry::ModelRegistry;
use instrument_core::scpi::ScpiSession;
use instrument_core::transport::TransportIdentity;

#[test]
fn registry_hint_for_usb_vid_pid() {
    let registry = ModelRegistry::embedded();
    let addr = ResourceAddress::parse("USB0::0x0957::0x0607::SN::INSTR").unwrap();
    let (_, kinds) = classify_from_address(&addr, &registry);
    assert!(kinds.iter().any(|k| k.kind == InstrumentKind::Dmm));
}

#[test]
fn probe_policy_none_skips_capability_queries() {
    let transport = MockTransport::from_script(vec![
        ScriptStep::Write {
            data: ":SENS:FUNC?\n".into(),
        },
        ScriptStep::Read {
            data: "VOLT\n".into(),
        },
    ]);
    let mut session = ScpiSession::new(Box::new(transport), ConnectOptions::default()).unwrap();
    let kinds = classify_with_policy(&mut session, ProbePolicy::Disabled);
    assert!(kinds.is_empty());
}

#[test]
fn user_override_wins() {
    let (kinds, _) = merge_classifications(
        vec![vec![ClassifiedKind {
            kind: InstrumentKind::Unknown,
            confidence: 10,
            source: ClassifySource::ResourceParse,
        }]],
        Some(&[InstrumentKind::Dmm]),
    );
    assert_eq!(kinds, vec![InstrumentKind::Dmm]);
}

#[test]
fn scope_readonly_probe_succeeds() {
    let transport = MockTransport::from_script(vec![
        ScriptStep::Write {
            data: ":TIMebase:SCALe?\n".into(),
        },
        ScriptStep::Read {
            data: "1e-3\n".into(),
        },
    ]);
    let mut session = ScpiSession::new(Box::new(transport), ConnectOptions::default()).unwrap();
    assert!(probe_any(
        &mut session,
        &scope_readonly_commands(),
        probe_timeout()
    ));
}

#[test]
fn switch_readonly_probe_succeeds() {
    let transport = MockTransport::from_script(vec![
        ScriptStep::Write {
            data: ":ROUTe:CLOS?\n".into(),
        },
        ScriptStep::Read { data: "0\n".into() },
    ]);
    let mut session = ScpiSession::new(Box::new(transport), ConnectOptions::default()).unwrap();
    assert!(probe_any(
        &mut session,
        &switch_readonly_commands(),
        probe_timeout()
    ));
}

#[test]
fn counter_readonly_probe_succeeds() {
    let transport = MockTransport::from_script(vec![
        ScriptStep::Write {
            data: ":COUNter:DATA?\n".into(),
        },
        ScriptStep::Read {
            data: "42\n".into(),
        },
    ]);
    let mut session = ScpiSession::new(Box::new(transport), ConnectOptions::default()).unwrap();
    assert!(probe_any(
        &mut session,
        &counter_readonly_commands(),
        probe_timeout()
    ));
}

fn kind_entry(kind: InstrumentKind, confidence: u8, source: ClassifySource) -> ClassifiedKind {
    ClassifiedKind {
        kind,
        confidence,
        source,
    }
}

#[test]
fn merge_keeps_confident_kinds_in_name_order() {
    let (supported, all) = merge_classifications(
        vec![
            vec![kind_entry(InstrumentKind::Unknown, 10, ClassifySource::ResourceParse)],
            vec![
                kind_entry(InstrumentKind::Switch, 85, ClassifySource::CapabilityProbe),
                kind_entry(InstrumentKind::Counter, 39, ClassifySource::CapabilityProbe),
                kind_entry(InstrumentKind::Dmm, 40, ClassifySource::ModelRegistry),
                kind_entry(InstrumentKind::Dmm, 80, ClassifySource::CapabilityProbe),
            ],
        ],
        None,
    );
    assert_eq!(supported, vec![InstrumentKind::Dmm, InstrumentKind::Switch]);
    assert_eq!(all.len(), 5);
    assert_eq!(all[0].kind, InstrumentKind::Unknown);
}

#[test]
fn merge_without_confident_kinds_is_unknown() {
    let (supported, _) = merge_classifications(
        vec![vec![kind_entry(InstrumentKind::Dmm, 39, ClassifySource::ScpiIdn)]],
        None,
    );
    assert_eq!(supported, vec![InstrumentKind::Unknown]);
    let (supported, all) = merge_classifications(Vec::new(), None);
    assert_eq!(supported, vec![InstrumentKind::Unknown]);
    assert!(all.is_empty());
}

#[test]
fn override_entries_have_full_confidence() {
    let (kinds, classified) = merge_classifications(
        Vec::new(),
        Some(&[InstrumentKind::Oscilloscope, InstrumentKind::Counter]),
    );
    assert_eq!(kinds, vec![InstrumentKind::Oscilloscope, InstrumentKind::Counter]);
    assert_eq!(
        classified,
        vec![
            kind_entry(InstrumentKind::Oscilloscope, 100, ClassifySource::UserOverride),
            kind_entry(InstrumentKind::Counter, 100, ClassifySource::UserOverride),
        ]
    );
}

#[test]
fn address_without_registry_hint_is_unknown() {
    let registry = ModelRegistry::new();
    let addr = ResourceAddress::parse("USB0::0x1234::0x5678::SN7::INSTR").unwrap();
    let (identity, kinds) = classify_from_address(&addr, &registry);
    assert_eq!(
        kinds,
        vec![kind_entry(InstrumentKind::Unknown, 10, ClassifySource::ResourceParse)]
    );
    assert_eq!(identity.serial.as_deref(), Some("SN7"));
    assert_eq!(identity.manufacturer, None);
}

#[test]
fn usb_hint_gives_identity_and_kinds() {
    let registry = ModelRegistry::embedded();
    let addr = ResourceAddress::parse("USB0::0x0957::0x0607::SN::INSTR").unwrap();
    let (identity, kinds) = classify_from_address(&addr, &registry);
    assert_eq!(
        kinds,
        vec![kind_entry(InstrumentKind::Dmm, 40, ClassifySource::ModelRegistry)]
    );
    assert!(identity.manufacturer.is_some());
    assert_eq!(identity.serial.as_deref(), Some("SN"));
}

#[test]
fn transport_hint_layer() {
    let mut registry = ModelRegistry::new();
    registry.add_model_entry("Acme", "PSU-1", vec![InstrumentKind::DcPowerSupply]);
    let mut hint = TransportIdentity::default();
    hint.manufacturer = Some(" ACME ".to_string());
    hint.model = Some("psu-1".to_string());
    let (identity, kinds) = classify_from_transport_hint(&hint, &registry);
    assert_eq!(
        kinds,
        vec![kind_entry(InstrumentKind::DcPowerSupply, 45, ClassifySource::ModelRegistry)]
    );
    assert_eq!(identity.manufacturer.as_deref(), Some(" ACME "));

    let mut bare = TransportIdentity::default();
    bare.manf_id = Some(0x0957);
    let (_, kinds) = classify_from_transport_hint(&bare, &registry);
    assert_eq!(
        kinds,
        vec![kind_entry(InstrumentKind::Unknown, 15, ClassifySource::VisaAttributes)]
    );
    let (_, kinds) = classify_from_transport_hint(&TransportIdentity::default(), &registry);
    assert!(kinds.is_empty());
}

#[test]
fn identity_layer_adds_unknown_after_registry_kinds() {
    let mut registry = ModelRegistry::new();
    registry.add_model_entry("Keysight Technologies", "34401A", vec![InstrumentKind::Dmm]);
    let idn = Idn::parse("Keysight Technologies,34401A,MY1,2.0");
    let (identity, kinds) = classify_from_identity(&idn, &registry);
    assert_eq!(
        kinds,
        vec![
            kind_entry(InstrumentKind::Dmm, 60, ClassifySource::ModelRegistry),
            kind_entry(InstrumentKind::Unknown, 30, ClassifySource::ScpiIdn),
        ]
    );
    assert_eq!(identity.firmware.as_deref(), Some("2.0"));
}

#[test]
fn readonly_probing_reports_answering_kinds() {
    // Every multimeter probe is refused (script mismatch), the PSU answers its first.
    let transport = MockTransport::from_script(vec![
        ScriptStep::Clear,
    ]);
    let mut session = ScpiSession::new(Box::new(transport), ConnectOptions {
        retries: 0,
        ..ConnectOptions::default()
    })
    .unwrap();
    let kinds = classify_with_policy(&mut session, ProbePolicy::ReadOnly);
    assert!(kinds.is_empty());

    let transport = MockTransport::from_script(vec![
        ScriptStep::Write { data: ":SENS:FUNC?\n".into() },
        ScriptStep::Read { data: "VOLT\n".into() },
    ]);
    let mut session = ScpiSession::new(Box::new(transport), ConnectOptions::default()).unwrap();
    let kinds = classify_with_policy(&mut session, ProbePolicy::ReadOnly);
    assert_eq!(
        kinds,
        vec![kind_entry(InstrumentKind::Dmm, 80, ClassifySource::CapabilityProbe)]
    );
}

#[test]
fn default_probe_policy_is_read_only() {
    assert_eq!(ProbePolicy::default(), ProbePolicy::ReadOnly);
}
