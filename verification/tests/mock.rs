use instrument_core::error::Error;
use instrument_core::kind::InstrumentKind;
use instrument_core::mock::{mock_address, MockTransport, ScriptStep, ScriptedFixture, Transcript};
use instrument_core::recording::RecordingTransport;
use instrument_core::transport::Transport;

fn w(s: &str) -> ScriptStep {
    ScriptStep::Write { data: s.into() }
}

fn r(s: &str) -> ScriptStep {
    ScriptStep::Read { data: s.into() }
}

#[test]
fn mock_compares_writes_ignoring_case_and_whitespace() {
    let mut t = MockTransport::from_script(vec![w("*idn?\n")]);
    assert!(t.write(b"  *IDN?  ").is_ok());
    assert!(matches!(t.write(b"*IDN?\n"), Err(Error::MockExhausted)));
}

#[test]
fn mismatch_leaves_the_script_in_place() {
    let mut t = MockTransport::from_script(vec![w("A\n"), r("B\n")]);
    let mut buf = [0u8; 8];
    match t.read(&mut buf) {
        Err(Error::MockMismatch { expected, actual }) => {
            assert_eq!(expected, "read");
            assert_eq!(actual, "Write { data: \"A\\n\" }");
        }
        other => panic!("unexpected {other:?}"),
    }
    assert!(matches!(t.write(b"X"), Err(Error::MockMismatch { .. })));
    assert!(t.write(b"A").is_ok());
    assert_eq!(t.read(&mut buf).unwrap(), 2);
    assert_eq!(&buf[..2], b"B\n");
}

#[test]
fn read_copies_what_fits() {
    let mut t = MockTransport::from_script(vec![r("abcdef")]);
    let mut buf = [0u8; 4];
    assert_eq!(t.read(&mut buf).unwrap(), 4);
    assert_eq!(&buf, b"abcd");
}

#[test]
fn failing_reads_and_writes_do_not_consume_steps() {
    let mut t = MockTransport::from_script(vec![w("A"), r("B")])
        .fail_writes(1)
        .fail_reads(2);
    assert!(matches!(t.write(b"A"), Err(Error::Timeout)));
    assert!(t.write(b"A").is_ok());
    let mut buf = [0u8; 4];
    assert!(matches!(t.read(&mut buf), Err(Error::Timeout)));
    assert!(matches!(t.read(&mut buf), Err(Error::Timeout)));
    assert_eq!(t.read(&mut buf).unwrap(), 1);
}

#[test]
fn clear_plays_clear_steps() {
    let mut t = MockTransport::from_script(vec![ScriptStep::Clear, w("A")]);
    assert!(t.clear().is_ok());
    match t.clear() {
        Err(Error::MockMismatch { expected, .. }) => assert_eq!(expected, "clear"),
        other => panic!("unexpected {other:?}"),
    }
}

#[test]
fn reopen_replays_from_the_start() {
    let mut t = MockTransport::from_script(vec![w("A")]).fail_writes(1);
    let mut again = t.reopen();
    assert!(matches!(t.write(b"A"), Err(Error::Timeout)));
    assert!(t.write(b"A").is_ok());
    assert!(matches!(again.write(b"A"), Err(Error::Timeout)));
    assert!(again.write(b"A").is_ok());
    assert_eq!(t.script(), &[w("A")]);
}

#[test]
fn fixture_builds_writes_then_queries() {
    let fixture = ScriptedFixture::builder()
        .idn("Acme", "M1", "SN1", "1.0")
        .kinds(vec![InstrumentKind::Dmm])
        .on_write("CONF:VOLT")
        .on_query("MEAS?", "1.0")
        .on_query("*OPC?", "1\n")
        .on_query("MEAS?", "2.0")
        .with_idn_probe()
        .build();
    assert_eq!(fixture.kinds(), &[InstrumentKind::Dmm]);
    assert_eq!(fixture.idn().model, "M1");
    let transport = fixture.into_transport();
    assert_eq!(
        transport.script(),
        &[
            w("CONF:VOLT\n"),
            w("MEAS?\n"),
            r("2.0\n"),
            w("*OPC?\n"),
            r("1\n"),
            w("*IDN?\n"),
            r("Acme,M1,SN1,1.0\n"),
        ]
    );
    let identity = transport.identity();
    assert_eq!(identity.manufacturer.as_deref(), Some("Acme"));
    assert_eq!(identity.serial.as_deref(), Some("SN1"));
}

#[test]
fn mock_addresses_use_the_mock_scheme() {
    let address = mock_address("dmm-1").unwrap();
    assert_eq!(address.raw, "mock://dmm-1");
}

#[test]
fn transcripts_keep_their_steps() {
    let transcript = Transcript::from_steps(vec![w("A"), ScriptStep::Clear]);
    assert_eq!(transcript.steps, vec![w("A"), ScriptStep::Clear]);
}

#[test]
fn recording_transport_records_a_replayable_script() {
    let inner = MockTransport::from_script(vec![w("*IDN?\n"), r("Acme,M1,SN,1\n"), ScriptStep::Clear]);
    let mut rec = RecordingTransport::new(inner);
    rec.write(b"*IDN?\n").unwrap();
    let mut buf = [0u8; 64];
    let n = rec.read(&mut buf).unwrap();
    assert_eq!(&buf[..n], b"Acme,M1,SN,1\n");
    rec.clear().unwrap();
    assert!(rec.read(&mut buf).is_err());
    let script = rec.into_script();
    assert_eq!(
        script,
        vec![w("*IDN?\n"), r("Acme,M1,SN,1\n"), ScriptStep::Clear]
    );
}
