use instrument_core::address::ResourceAddress;
use instrument_core::connect::ConnectOptions;
use instrument_core::error::Error;
use instrument_core::identity::DeviceIdentity;
use instrument_core::ieee4882::Ieee4882;
use instrument_core::kind::InstrumentKind;
use instrument_core::mock::{MockTransport, ScriptStep};
use instrument_core::scpi::ScpiSession;
use instrument_core::session::{ensure_kind_supported, InstrumentSession, SessionPool};
use std::time::Duration;

fn w(s: &str) -> ScriptStep {
    ScriptStep::Write { data: s.into() }
}

fn r(s: &str) -> ScriptStep {
    ScriptStep::Read { data: s.into() }
}

fn quick_opts() -> ConnectOptions {
    ConnectOptions {
        retries: 1,
        retry_backoff: Duration::from_millis(1),
        reconnect_on_failure: false,
        ..Default::default()
    }
}

#[test]
fn write_timeout_is_not_retried() {
    let transport = MockTransport::from_script(vec![w("*RST\n")]).fail_writes(1);
    let mut session = ScpiSession::new(Box::new(transport), quick_opts()).unwrap();
    assert!(matches!(session.write("*RST"), Err(Error::Timeout)));
}

#[test]
fn query_write_retries_are_bounded() {
    let transport = MockTransport::from_script(vec![w("*IDN?\n"), r("x\n")]).fail_writes(2);
    let mut session = ScpiSession::new(Box::new(transport), quick_opts()).unwrap();
    assert!(matches!(session.query("*IDN?"), Err(Error::Timeout)));
}

#[test]
fn query_reply_is_trimmed() {
    let transport = MockTransport::from_script(vec![w("MEAS?\n"), r("  4.25  \n")]);
    let mut session = ScpiSession::new(Box::new(transport), quick_opts()).unwrap();
    assert_eq!(session.query("MEAS?").unwrap(), "4.25");
}

#[test]
fn non_timeout_failures_end_the_query() {
    let transport = MockTransport::from_script(vec![ScriptStep::Clear]);
    let mut session = ScpiSession::new(Box::new(transport), quick_opts()).unwrap();
    match session.query("*IDN?") {
        Err(Error::MockMismatch { expected, actual }) => {
            assert_eq!(expected, "write, got Clear");
            assert_eq!(actual, "*IDN?\n");
        }
        other => panic!("unexpected {other:?}"),
    }
}

#[test]
fn check_errors_drains_queue_until_no_error() {
    let transport = MockTransport::from_script(vec![
        w("SYST:ERR?\n"),
        r("-113,\"Undefined header\"\n"),
        w("SYST:ERR?\n"),
        r("-222,\"Data out of range\"\n"),
        w("SYST:ERR?\n"),
        r("+0,\"No error\"\n"),
    ]);
    let mut session = ScpiSession::new(Box::new(transport), quick_opts()).unwrap();
    let errors = session.check_errors().unwrap();
    assert_eq!(errors, vec!["-222,\"Data out of range\"".to_string()]);
}

#[test]
fn check_errors_without_error_queue_is_empty() {
    let transport = MockTransport::from_script(vec![w("SYST:ERR?\n"), r("OK\n")]);
    let mut session = ScpiSession::new(Box::new(transport), quick_opts()).unwrap();
    assert!(session.check_errors().unwrap().is_empty());
    // The probe result is cached: no second probe is sent.
    assert!(session.check_errors().unwrap().is_empty());
}

#[test]
fn probe_results_are_cached() {
    let transport = MockTransport::from_script(vec![w("*OPC?\n"), r("1\n")]);
    let mut session = ScpiSession::new(Box::new(transport), quick_opts()).unwrap();
    assert!(session.probe_opc());
    assert!(session.probe_opc());
}

#[test]
fn ieee_common_commands() {
    let transport = MockTransport::from_script(vec![
        w("*IDN?\n"),
        r("Acme,M1,SN5,1.0\n"),
        w("*CLS\n"),
        w("*OPC?\n"),
        r("1\n"),
        w("*OPC?\n"),
        r("1\n"),
        w("*OPT?\n"),
        r("OPT1,OPT2\n"),
    ]);
    let mut session = ScpiSession::new(Box::new(transport), quick_opts()).unwrap();
    let mut ieee = Ieee4882::new(&mut session);
    let idn = ieee.idn().unwrap();
    assert_eq!(idn.manufacturer, "Acme");
    assert_eq!(idn.serial, "SN5");
    ieee.clear_status().unwrap();
    assert!(ieee.opc_query().unwrap());
    assert_eq!(ieee.options().unwrap(), "OPT1,OPT2");
}

#[test]
fn opc_query_reports_pending_operations() {
    let transport = MockTransport::from_script(vec![
        w("*OPC?\n"),
        r("1\n"),
        w("*OPC?\n"),
        r(" 0 \n"),
    ]);
    let mut session = ScpiSession::new(Box::new(transport), quick_opts()).unwrap();
    assert!(!Ieee4882::new(&mut session).opc_query().unwrap());
}

#[test]
fn opc_query_without_opc_is_complete() {
    let transport = MockTransport::from_script(vec![w("*OPC?\n"), r("-113,\"Undefined header\"\n")]);
    let mut session = ScpiSession::new(Box::new(transport), quick_opts()).unwrap();
    assert!(Ieee4882::new(&mut session).opc_query().unwrap());
}

#[test]
fn reset_on_connect_clears_and_resets() {
    let transport = MockTransport::from_script(vec![
        w("*CLS\n"),
        w("*RST\n"),
        w("*OPC?\n"),
        r("1\n"),
        w("*OPC?\n"),
        r("1\n"),
        w("*IDN?\n"),
        r("Acme,M1,SN5,1.0\n"),
    ]);
    let opts = ConnectOptions {
        reset_on_connect: true,
        ..quick_opts()
    };
    let mut session = ScpiSession::new(Box::new(transport), opts).unwrap();
    assert_eq!(session.query("*IDN?").unwrap(), "Acme,M1,SN5,1.0");
}

#[test]
fn instrument_session_errors_carry_context() {
    let address = ResourceAddress::parse("TCPIP0::10.0.0.2::INSTR").unwrap();
    let transport = MockTransport::from_script(vec![]);
    let mut session = InstrumentSession::new(
        address,
        Box::new(transport),
        quick_opts(),
        DeviceIdentity::unknown(),
    )
    .unwrap();
    assert_eq!(session.address_str(), "TCPIP0::10.0.0.2::INSTR");
    match session.idn() {
        Err(Error::Comm {
            address,
            command,
            attempts,
            source,
        }) => {
            assert_eq!(address, "TCPIP0::10.0.0.2::INSTR");
            assert_eq!(command.as_deref(), Some("idn"));
            assert_eq!(attempts, 1);
            assert!(matches!(*source, Error::MockExhausted));
        }
        other => panic!("unexpected {other:?}"),
    }
}

#[test]
fn pooled_sessions_share_one_session() {
    let address = ResourceAddress::parse("GPIB0::7::INSTR").unwrap();
    let transport = MockTransport::from_script(vec![w("*CLS\n")]);
    let session =
        InstrumentSession::new(address, Box::new(transport), quick_opts(), DeviceIdentity::unknown())
            .unwrap();
    let pool = SessionPool::new(session);
    let a = pool.open_session().unwrap();
    let b = pool.open_session().unwrap();
    a.lock().unwrap().clear_status().unwrap();
    // The script step was played through the shared session, so it is gone for b too.
    assert!(b.lock().unwrap().clear_status().is_err());
    assert_eq!(pool.session().lock().unwrap().address_str(), "GPIB0::7::INSTR");
}

#[test]
fn kind_support_is_checked() {
    let address = ResourceAddress::parse("USB0::1::2::SN::INSTR").unwrap();
    assert!(ensure_kind_supported(&address, InstrumentKind::Dmm, &[InstrumentKind::Dmm]).is_ok());
    let err = ensure_kind_supported(
        &address,
        InstrumentKind::Oscilloscope,
        &[InstrumentKind::Dmm, InstrumentKind::Counter],
    )
    .unwrap_err();
    assert_eq!(
        err.to_string(),
        "kind Oscilloscope not supported at USB0::1::2::SN::INSTR; supported: [Dmm, Counter]"
    );
}
