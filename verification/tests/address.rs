use instrument_core::address::{InterfaceKind, ResourceAddress};
use instrument_core::error::Error;

#[test]
fn parses_usb_address() {
    let addr = ResourceAddress::parse("USB0::0x0957::0x0607::MY123::INSTR").unwrap();
    assert_eq!(addr.interface, InterfaceKind::Usb);
    assert_eq!(addr.components.vid.as_deref(), Some("0957"));
    assert_eq!(addr.components.pid.as_deref(), Some("0607"));
}

#[test]
fn dedup_is_case_insensitive() {
    let a = ResourceAddress::parse("usb0::0x0957::0x0607::SN::INSTR").unwrap();
    let b = ResourceAddress::parse("USB0::0x0957::0x0607::SN::INSTR").unwrap();
    assert_eq!(a.dedup_key(), b.dedup_key());
}

#[test]
fn empty_address_is_invalid() {
    let err = ResourceAddress::parse("   ").unwrap_err();
    assert!(matches!(err, Error::InvalidAddress(ref m) if m == "empty address"));
}

#[test]
fn parsed_address_is_trimmed() {
    let addr = ResourceAddress::parse("  TCPIP0::192.168.1.5::inst0::INSTR \n").unwrap();
    assert_eq!(addr.raw, "TCPIP0::192.168.1.5::inst0::INSTR");
    assert_eq!(addr.interface, InterfaceKind::Tcpip);
    assert_eq!(addr.components.host.as_deref(), Some("192.168.1.5"));
}

#[test]
fn gpib_address_components() {
    let addr = ResourceAddress::parse("GPIB0::22::INSTR").unwrap();
    assert_eq!(addr.interface, InterfaceKind::Gpib);
    assert_eq!(addr.components.board, Some(0));
    assert_eq!(addr.components.primary_address, Some(22));
}

#[test]
fn different_addresses_have_different_keys() {
    let a = ResourceAddress::parse("USB0::0x0957::0x0607::SN1::INSTR").unwrap();
    let b = ResourceAddress::parse("USB0::0x0957::0x0607::SN2::INSTR").unwrap();
    assert_ne!(a.dedup_key(), b.dedup_key());
}
