use instrument_core::enumerator::{ResourceEnumerator, StaticEnumerator};
use instrument_core::error::Error;

#[test]
fn lists_all_or_matching_resources() {
    let e = StaticEnumerator::from_addresses(vec![
        "USB0::0x0957::0x0607::SN::INSTR".to_string(),
        "GPIB0::22::INSTR".to_string(),
        "TCPIP0::10.0.0.2::INSTR".to_string(),
    ])
    .unwrap();
    assert_eq!(e.list("?*INSTR").unwrap().len(), 3);
    assert_eq!(e.list("?*").unwrap().len(), 3);
    let gpib = e.list("GPIB?").unwrap();
    assert_eq!(gpib.len(), 1);
    assert_eq!(gpib[0].address.raw, "GPIB0::22::INSTR");
    assert!(e.list("ASRL").unwrap().is_empty());
}

#[test]
fn invalid_address_fails_enumeration_setup() {
    let err = StaticEnumerator::from_addresses(vec!["GPIB0::1::INSTR".to_string(), " ".to_string()])
        .unwrap_err();
    assert!(matches!(err, Error::InvalidAddress(_)));
    assert!(StaticEnumerator::default().list("?*").unwrap().is_empty());
}
