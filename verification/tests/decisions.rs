use instrument_core::address::{InterfaceKind, ResourceAddress};
use instrument_core::backend::{interface_from_visa, visa_timeout_ms};
use instrument_core::classifier::policy::probe_plan;
use instrument_core::classifier::DiscoveredDevice;
use instrument_core::error::Error;
use instrument_core::identity::{DeviceIdentity, Idn};
use instrument_core::kind::InstrumentKind;
use instrument_core::probe_policy::ProbePolicy;
use instrument_core::scpi::decision::{
    after_read, after_reply, after_write, query_backoff, QueryAction, ReadAction, ReadEvent,
    ReplyEvent, WriteAction, WriteEvent,
};
use instrument_core::scpi::protocol::{not_a_number, numeric_fields};
use instrument_core::scpi::session::reports_no_error;
use instrument_core::transport::{BufferTransport, Transport};
use std::time::Duration;

#[test]
fn write_decisions() {
    assert_eq!(after_write(WriteEvent::Sent, 1, 3, true), WriteAction::Done);
    assert_eq!(
        after_write(WriteEvent::TimedOut, 1, 3, true),
        WriteAction::Retry { reconnect: true }
    );
    assert_eq!(
        after_write(WriteEvent::TimedOut, 2, 3, false),
        WriteAction::Retry { reconnect: false }
    );
    assert_eq!(after_write(WriteEvent::TimedOut, 3, 3, true), WriteAction::TimeOut);
    assert_eq!(after_write(WriteEvent::Failed, 1, 3, true), WriteAction::Fail);
}

#[test]
fn read_decisions() {
    assert_eq!(
        after_read(b"1.5\n", "\n", ReadEvent::Bytes, true),
        ReadAction::Deliver(b"1.5".to_vec())
    );
    assert_eq!(after_read(b"1.5", "\n", ReadEvent::Bytes, true), ReadAction::KeepReading);
    assert_eq!(
        after_read(b"", "\n", ReadEvent::Nothing, true),
        ReadAction::TimeOut { reconnect: false }
    );
    assert_eq!(
        after_read(b"1.5", "\n", ReadEvent::TimedOut, true),
        ReadAction::TimeOut { reconnect: true }
    );
    assert_eq!(after_read(b"1.5\n", "\n", ReadEvent::Failed, true), ReadAction::Fail);
    assert_eq!(
        after_read(b"#12", "\n", ReadEvent::Bytes, false),
        ReadAction::KeepReading
    );
}

#[test]
fn reply_decisions() {
    assert_eq!(after_reply(ReplyEvent::Framed, 1, 2), QueryAction::Deliver);
    assert_eq!(after_reply(ReplyEvent::TimedOut, 1, 2), QueryAction::FlushAndRetry);
    assert_eq!(after_reply(ReplyEvent::TimedOut, 2, 2), QueryAction::FlushAndTimeOut);
    assert_eq!(after_reply(ReplyEvent::Failed, 1, 2), QueryAction::Fail);
    assert_eq!(query_backoff(Duration::from_millis(100), 3), Duration::from_millis(300));
    assert_eq!(query_backoff(Duration::MAX, 2), Duration::MAX);
}

#[test]
fn no_error_replies() {
    assert!(reports_no_error("0,\"No error\""));
    assert!(reports_no_error("+0,\"No error\""));
    assert!(!reports_no_error("-113,\"Undefined header\""));
    assert!(!reports_no_error(" 0,\"No error\""));
}

#[test]
fn numeric_fields_split_trim_and_skip_empty() {
    assert_eq!(numeric_fields(" 1.0, 2.5 ,3.0,"), vec!["1.0", "2.5", "3.0"]);
    assert!(numeric_fields(" , ,").is_empty());
    match not_a_number("abc") {
        Error::Parse(m) => assert_eq!(m, "expected number, got 'abc'"),
        other => panic!("unexpected {other:?}"),
    }
}

#[test]
fn visa_values_map_to_library_values() {
    assert_eq!(visa_timeout_ms(Duration::from_millis(2500)), 2500);
    assert_eq!(visa_timeout_ms(Duration::from_secs(u64::MAX)), u32::MAX);
    assert_eq!(interface_from_visa(1), InterfaceKind::Gpib);
    assert_eq!(interface_from_visa(3), InterfaceKind::Vxi);
    assert_eq!(interface_from_visa(4), InterfaceKind::Serial);
    assert_eq!(interface_from_visa(7), InterfaceKind::Usb);
    assert_eq!(interface_from_visa(99), InterfaceKind::Unknown);
}

#[test]
fn probe_plans_follow_policy() {
    assert!(probe_plan(ProbePolicy::Disabled).is_empty());
    let readonly = probe_plan(ProbePolicy::ReadOnly);
    assert_eq!(readonly.len(), 6);
    assert_eq!(readonly[0].kind, InstrumentKind::Dmm);
    assert_eq!(readonly[0].commands[0], ":SENS:FUNC?");
    let full = probe_plan(ProbePolicy::Full);
    assert_eq!(full.len(), 7);
    assert_eq!(full[6].confidence, 90);
    assert_eq!(full[6].commands, vec![":MEAS:VOLT:DC?", "MEAS:VOLT:DC?"]);
}

#[test]
fn discovered_device_id() {
    let device = DiscoveredDevice {
        address: ResourceAddress::parse("USB0::0x0957::0x0607::MY1::INSTR").unwrap(),
        identity: DeviceIdentity::from_idn(&Idn::parse("Agilent,34410A,MY1,2.0")),
        supported_kinds: vec![InstrumentKind::Dmm],
        classification: Vec::new(),
        reachable: true,
        error: None,
    };
    assert_eq!(device.device_id().as_str(), "Agilent|34410A|MY1");
}

#[test]
fn buffer_transport_plumbing() {
    let mut t = BufferTransport::new(b"abcdef".to_vec());
    t.write(b"hello").unwrap();
    assert_eq!(t.written, b"hello");
    let mut buf = [0u8; 4];
    assert_eq!(t.read(&mut buf).unwrap(), 4);
    assert_eq!(&buf, b"abcd");
    assert_eq!(t.read(&mut buf).unwrap(), 2);
    assert!(t.read(&mut buf).is_err());
    t.clear().unwrap();
    assert_eq!(t.read(&mut buf).unwrap(), 4);
}
