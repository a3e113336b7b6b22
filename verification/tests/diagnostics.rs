use instrument_core::connect::ConnectOptions;
use instrument_core::diagnostics::{CommsEvent, CommsEventKind, CommsObserver, DeviceHealth, Diagnostics};
use instrument_core::mock::{MockTransport, ScriptStep};
use instrument_core::scpi::ScpiSession;
use std::sync::{Arc, Mutex};
use std::time::Duration;

struct Recorder {
    events: Mutex<Vec<CommsEvent>>,
}

impl CommsObserver for Recorder {
    fn on_event(&self, event: &CommsEvent) {
        self.events.lock().unwrap().push(event.clone());
    }
}

#[test]
fn health_counts_successes_and_failures() {
    let mut h = DeviceHealth::default();
    assert!(h.is_healthy());
    h.note_failure("write timeout", 10);
    h.note_failure("read timeout", 20);
    assert!(!h.is_healthy());
    assert_eq!(h.consecutive_failures, 2);
    assert_eq!(h.total_failures, 2);
    assert_eq!(h.last_error.as_deref(), Some("read timeout"));
    assert_eq!(h.last_failure_unix_ms, Some(20));
    h.note_success(30);
    assert!(h.is_healthy());
    assert_eq!(h.total_operations, 3);
    assert_eq!(h.total_failures, 2);
    assert_eq!(h.last_success_unix_ms, Some(30));
    assert_eq!(h.last_error.as_deref(), Some("read timeout"));
}

#[test]
fn health_counters_saturate() {
    let mut h = DeviceHealth::default();
    h.total_operations = u64::MAX;
    h.consecutive_failures = u32::MAX;
    h.note_failure("x", 1);
    assert_eq!(h.total_operations, u64::MAX);
    assert_eq!(h.consecutive_failures, u32::MAX);
}

#[test]
fn diagnostics_record_session_traffic() {
    let health = Arc::new(Mutex::new(DeviceHealth::default()));
    let recorder = Arc::new(Recorder {
        events: Mutex::new(Vec::new()),
    });
    let diagnostics = Diagnostics::new("mock://dmm-1")
        .with_health(health.clone())
        .with_observer(recorder.clone());
    assert_eq!(diagnostics.address(), "mock://dmm-1");
    let transport = MockTransport::from_script(vec![
        ScriptStep::Write {
            data: "*IDN?\n".into(),
        },
        ScriptStep::Read {
            data: "Acme,123,SN,1.0\n".into(),
        },
    ])
    .fail_writes(1);
    let opts = ConnectOptions {
        retries: 1,
        retry_backoff: Duration::from_millis(1),
        reconnect_on_failure: false,
        ..Default::default()
    };
    let mut session = ScpiSession::new(Box::new(transport), opts)
        .unwrap()
        .with_diagnostics(diagnostics.clone());
    assert_eq!(session.query("*IDN?").unwrap(), "Acme,123,SN,1.0");

    let events = recorder.events.lock().unwrap();
    let kinds: Vec<CommsEventKind> = events.iter().map(|e| e.kind).collect();
    assert_eq!(
        kinds,
        vec![CommsEventKind::Timeout, CommsEventKind::WriteOk, CommsEventKind::ReadOk]
    );
    assert_eq!(events[0].detail.as_deref(), Some("write timeout"));
    assert_eq!(events[0].attempt, 1);
    assert_eq!(events[1].attempt, 2);
    assert_eq!(events[2].command.as_deref(), Some("*IDN?"));
    assert!(events.iter().all(|e| e.address == "mock://dmm-1"));

    let h = health.lock().unwrap();
    assert_eq!(h.total_operations, 3);
    assert_eq!(h.total_failures, 1);
    assert!(h.is_healthy());
}

#[test]
fn event_builder_fills_fields() {
    let d = Diagnostics::new("GPIB0::1::INSTR");
    let e = d.event(CommsEventKind::ReadFailed, Some("MEAS?"), 3, 12, Some("io"));
    assert_eq!(e.address, "GPIB0::1::INSTR");
    assert_eq!(e.kind, CommsEventKind::ReadFailed);
    assert_eq!(e.command.as_deref(), Some("MEAS?"));
    assert_eq!(e.attempt, 3);
    assert_eq!(e.elapsed_ms, 12);
    assert_eq!(e.detail.as_deref(), Some("io"));
}
