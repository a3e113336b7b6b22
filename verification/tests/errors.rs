use instrument_core::connect::{AccessMode, ConnectOptions};
use instrument_core::error::{Error, TransportError};
use std::time::Duration;

#[test]
fn error_messages() {
    assert_eq!(Error::Timeout.to_string(), "operation timed out");
    assert_eq!(
        Error::Transport(TransportError::Closed).to_string(),
        "transport: connection closed"
    );
    assert_eq!(
        Error::Transport(TransportError::Io("broken pipe".into())).to_string(),
        "transport: I/O error: broken pipe"
    );
    assert_eq!(Error::backend("visa".to_string()).to_string(), "backend: visa");
    assert_eq!(
        Error::MockMismatch {
            expected: "a\"b".into(),
            actual: "c".into()
        }
        .to_string(),
        "mock script mismatch: expected \"a\\\"b\", got \"c\""
    );
    assert_eq!(
        Error::ScpiCommand {
            command: "MEAS?".into(),
            message: "no".into()
        }
        .to_string(),
        "SCPI command 'MEAS?' failed: no"
    );
}

#[test]
fn comm_context_wraps_once() {
    let e = Error::Timeout.with_comm_context("GPIB0::1::INSTR".to_string(), Some("*RST"), 3);
    assert_eq!(
        e.to_string(),
        "communication failed at GPIB0::1::INSTR after 3 attempt(s): operation timed out"
    );
    let again = e.with_comm_context("other".to_string(), None, 9);
    match again {
        Error::Comm {
            address,
            command,
            attempts,
            ..
        } => {
            assert_eq!(address, "GPIB0::1::INSTR");
            assert_eq!(command.as_deref(), Some("*RST"));
            assert_eq!(attempts, 3);
        }
        other => panic!("unexpected {other:?}"),
    }
}

#[test]
fn connect_option_defaults() {
    let opts = ConnectOptions::default();
    assert_eq!(opts.open_timeout, Duration::from_secs(5));
    assert_eq!(opts.read_timeout, Duration::from_secs(10));
    assert_eq!(opts.write_timeout, Duration::from_secs(10));
    assert_eq!(opts.terminator, "\n");
    assert_eq!(opts.retries, 2);
    assert_eq!(opts.retry_backoff, Duration::from_millis(100));
    assert!(opts.reconnect_on_failure);
    assert!(!opts.reset_on_connect);
    assert_eq!(opts.access_mode, AccessMode::default());
    let shorter = opts.clone().with_read_timeout(Duration::from_secs(1));
    assert_eq!(shorter.io_timeout(), Duration::from_secs(10));
    let per_op = shorter.with_per_op_timeout(Duration::from_millis(250));
    assert_eq!(per_op.effective_read_timeout(), Duration::from_millis(250));
    assert_eq!(AccessMode::exclusive_lock(), AccessMode { exclusive_lock: true, shared_lock: false });
}
