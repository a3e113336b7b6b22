use instrument_core::kind::InstrumentKind;
use instrument_core::registry::{normalize_key, parse_kinds, ModelRegistry, UsbHint};

#[test]
fn lookups_ignore_case_and_whitespace() {
    let mut reg = ModelRegistry::new();
    reg.add_model_entry("Keysight Technologies", "34401A", vec![InstrumentKind::Dmm]);
    assert_eq!(
        reg.lookup_model("  keysight technologies ", "34401a"),
        Some(vec![InstrumentKind::Dmm])
    );
    assert_eq!(reg.lookup_model("Keysight", "34401A"), None);
    assert_eq!(normalize_key(" Acme ", " M1 "), "acme|m1");
}

#[test]
fn runtime_entries_take_precedence() {
    let mut reg = ModelRegistry::new();
    reg.add_model_entry("Acme", "M1", vec![InstrumentKind::Dmm]);
    reg.add_runtime("ACME", "m1", vec![InstrumentKind::Counter]);
    assert_eq!(reg.lookup_model("Acme", "M1"), Some(vec![InstrumentKind::Counter]));
}

#[test]
fn later_entries_replace_earlier_ones() {
    let mut reg = ModelRegistry::new();
    reg.add_model_entry("Acme", "M1", vec![InstrumentKind::Dmm]);
    reg.add_model_entry("acme", "m1", vec![InstrumentKind::Switch]);
    assert_eq!(reg.lookup_model("Acme", "M1"), Some(vec![InstrumentKind::Switch]));
}

#[test]
fn merge_keeps_existing_registry_entries() {
    let mut a = ModelRegistry::new();
    a.add_model_entry("Acme", "M1", vec![InstrumentKind::Dmm]);
    let mut b = ModelRegistry::new();
    b.add_model_entry("Acme", "M1", vec![InstrumentKind::Switch]);
    b.add_model_entry("Acme", "M2", vec![InstrumentKind::Counter]);
    b.add_runtime("Acme", "M1", vec![InstrumentKind::Oscilloscope]);
    b.add_usb_entry(
        "abcd",
        "0001",
        UsbHint {
            manufacturer: None,
            model: None,
            kinds: vec![InstrumentKind::PowerMeter],
        },
    );
    a.merge(&b);
    assert_eq!(a.lookup_model("Acme", "M2"), Some(vec![InstrumentKind::Counter]));
    assert_eq!(a.lookup_model("Acme", "M1"), Some(vec![InstrumentKind::Oscilloscope]));
    assert_eq!(
        a.lookup_usb("ABCD", "0001").map(|h| h.kinds),
        Some(vec![InstrumentKind::PowerMeter])
    );
}

#[test]
fn usb_lookup_is_case_insensitive() {
    let reg = ModelRegistry::embedded();
    let hint = reg.lookup_usb("0957", "0607").unwrap();
    assert_eq!(hint.kinds, vec![InstrumentKind::Dmm]);
    assert!(reg.lookup_usb("0957", "FFFF").is_none());
    let mut reg2 = ModelRegistry::new();
    reg2.add_usb_entry(
        "2a8d",
        "b318",
        UsbHint {
            manufacturer: Some("Keysight".into()),
            model: None,
            kinds: vec![],
        },
    );
    assert!(reg2.lookup_usb("2A8D", "B318").is_some());
}

#[test]
fn unknown_labels_are_skipped() {
    let labels = vec![
        "Dmm".to_string(),
        "Toaster".to_string(),
        "SpectrumAnalyzer".to_string(),
    ];
    assert_eq!(
        parse_kinds(&labels),
        vec![InstrumentKind::Dmm, InstrumentKind::SpectrumAnalyzer]
    );
}

#[test]
fn kind_labels_round_trip() {
    for kind in [
        InstrumentKind::Dmm,
        InstrumentKind::DcPowerSupply,
        InstrumentKind::FunctionGenerator,
        InstrumentKind::Oscilloscope,
        InstrumentKind::Switch,
        InstrumentKind::Counter,
        InstrumentKind::PowerMeter,
        InstrumentKind::SpectrumAnalyzer,
        InstrumentKind::Unknown,
    ] {
        assert_eq!(InstrumentKind::from_str_label(kind.as_str()), Some(kind));
    }
    assert_eq!(InstrumentKind::from_str_label("dmm"), None);
}

#[test]
fn embedded_registry_knows_common_models() {
    let reg = ModelRegistry::embedded();
    assert_eq!(
        reg.lookup_model("keysight technologies", " 34401A "),
        Some(vec![InstrumentKind::Dmm])
    );
    assert_eq!(
        reg.lookup_model("Rigol Technologies", "DS1054Z"),
        Some(vec![InstrumentKind::Oscilloscope])
    );
    assert_eq!(
        reg.lookup_model("Keysight Technologies", "53230A"),
        Some(vec![InstrumentKind::Counter])
    );
    assert_eq!(reg.lookup_model("Acme", "X1"), None);
}
