use instrument_core::error::Error;
use instrument_core::scpi::framing::extract_response;
use instrument_core::scpi::protocol::{max_write_attempts, normalize_command};
use instrument_core::scpi::{is_opc_supported_reply, is_syst_err_supported_reply};

#[test]
fn reads_definite_block_with_embedded_newline() {
    // #1 + length "4" + 4-byte payload containing newline
    let data = b"#14\nemb\n";
    let (payload, consumed) = extract_response(data, "\n").unwrap();
    assert_eq!(payload, b"\nemb");
    assert_eq!(consumed, 7);
}

#[test]
fn reads_ascii_terminated() {
    let data = b"3.300\n";
    let (payload, consumed) = extract_response(data, "\n").unwrap();
    assert_eq!(payload, b"3.300");
    assert_eq!(consumed, 6);
}

#[test]
fn reads_indefinite_block() {
    let data = b"#0hello\n";
    let (payload, consumed) = extract_response(data, "\n").unwrap();
    assert_eq!(payload, b"hello");
    assert_eq!(consumed, data.len());
}

#[test]
fn incomplete_response_needs_more() {
    assert!(matches!(extract_response(b"", "\n"), Err(Error::Timeout)));
    assert!(matches!(extract_response(b"3.30", "\n"), Err(Error::Timeout)));
    assert!(matches!(extract_response(b"#15ab", "\n"), Err(Error::Timeout)));
}

#[test]
fn malformed_block_headers_are_parse_errors() {
    assert!(matches!(
        extract_response(b"#x12", "\n"),
        Err(Error::Parse(ref m)) if m == "invalid block digit count"
    ));
    assert!(matches!(
        extract_response(b"#2a1xyz", "\n"),
        Err(Error::Parse(ref m)) if m == "invalid block length"
    ));
}

#[test]
fn custom_terminator_and_newline_fallback() {
    let (payload, consumed) = extract_response(b"1.5\r\nrest", "\r\n").unwrap();
    assert_eq!(payload, b"1.5");
    assert_eq!(consumed, 5);
    let (payload, consumed) = extract_response(b"2.5\nmore", ";").unwrap();
    assert_eq!(payload, b"2.5");
    assert_eq!(consumed, 4);
}

#[test]
fn framing_is_stable_when_more_bytes_arrive() {
    let (first, _) = extract_response(b"#14\nemb", "\n").unwrap();
    let (later, _) = extract_response(b"#14\nemb\nextra", "\n").unwrap();
    assert_eq!(first, later);
}

#[test]
fn opc_reply_accepts_one_only() {
    assert!(is_opc_supported_reply("1"));
    assert!(is_opc_supported_reply("  +1 \n"));
    assert!(!is_opc_supported_reply("-113,\"Undefined header\""));
    assert!(!is_opc_supported_reply("OK"));
    assert!(!is_opc_supported_reply(""));
}

#[test]
fn syst_err_reply_requires_code_comma() {
    assert!(is_syst_err_supported_reply("0,\"No error\""));
    assert!(is_syst_err_supported_reply("+0, \"No error\""));
    assert!(is_syst_err_supported_reply("-113,\"Undefined header\""));
    assert!(!is_syst_err_supported_reply("OK"));
    assert!(!is_syst_err_supported_reply("1"));
    assert!(!is_syst_err_supported_reply(""));
}

#[test]
fn commands_get_the_terminator_once() {
    assert_eq!(normalize_command("*IDN?", "\n"), "*IDN?\n");
    assert_eq!(normalize_command("*IDN?\n", "\n"), "*IDN?\n");
    let once = normalize_command("MEAS?", "\r\n");
    assert_eq!(normalize_command(&once, "\r\n"), once);
}

#[test]
fn write_attempts_follow_idempotence() {
    assert_eq!(max_write_attempts(false, 5), 1);
    assert_eq!(max_write_attempts(true, 2), 3);
    assert_eq!(max_write_attempts(true, u32::MAX), u32::MAX);
}
