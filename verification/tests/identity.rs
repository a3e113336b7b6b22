use instrument_core::identity::{DeviceId, DeviceIdentity, Idn};

#[test]
fn parses_idn() {
    let idn = Idn::parse("Keysight Technologies,34401A,MY123,1.0\n");
    assert_eq!(idn.manufacturer, "Keysight Technologies");
    assert_eq!(idn.model, "34401A");
}

#[test]
fn idn_fields_are_trimmed_and_firmware_keeps_commas() {
    let idn = Idn::parse(" Acme , Model 7 , SN42 , 1.2,build 3 \n");
    assert_eq!(idn.manufacturer, "Acme");
    assert_eq!(idn.model, "Model 7");
    assert_eq!(idn.serial, "SN42");
    assert_eq!(idn.firmware, "1.2,build 3");
}

#[test]
fn idn_with_missing_fields_leaves_them_empty() {
    let idn = Idn::parse("Acme");
    assert_eq!(idn.manufacturer, "Acme");
    assert_eq!(idn.model, "");
    assert_eq!(idn.serial, "");
    assert_eq!(idn.firmware, "");
}

#[test]
fn idn_round_trips_through_its_response() {
    let idn = Idn::parse("Rigol Technologies,DS1054Z,DS1ZA1,00.04.04");
    let again = Idn::parse(&idn.format_response());
    assert_eq!(again, idn);
    assert_eq!(idn.format_response(), "Rigol Technologies,DS1054Z,DS1ZA1,00.04.04");
}

#[test]
fn device_id_prefers_identity_then_address() {
    let idn = Idn::parse("Acme,M1,SN9,1.0");
    let identity = DeviceIdentity::from_idn(&idn);
    assert_eq!(DeviceId::from_identity(&identity, "USB0::1::2::3::INSTR").as_str(), "Acme|M1|SN9");
    let unknown = DeviceIdentity::unknown();
    assert_eq!(DeviceId::from_identity(&unknown, "GPIB0::5::INSTR").as_str(), "GPIB0::5::INSTR");
}

#[test]
fn merge_fills_only_unknown_fields() {
    let mut a = DeviceIdentity::unknown();
    a.manufacturer = Some("Acme".to_string());
    let b = DeviceIdentity::from_idn(&Idn::parse("Other,M2,SN1,2.0"));
    a.merge(&b);
    assert_eq!(a.manufacturer.as_deref(), Some("Acme"));
    assert_eq!(a.model.as_deref(), Some("M2"));
    assert_eq!(a.serial.as_deref(), Some("SN1"));
    assert_eq!(a.firmware.as_deref(), Some("2.0"));
    assert_eq!(a.options, None);
}
