use hdlc::server::{is_shutdown_command, is_shutdown_request};

#[test]
fn shutdown_command_test() {
    assert!(is_shutdown_command("shutdown"));
    assert!(!is_shutdown_command(" shutdown"));
    assert!(!is_shutdown_command("Shutdown"));
}

#[test]
fn shutdown_request_test() {
    assert!(is_shutdown_request(b"shutdown"));
    assert!(is_shutdown_request(b"  shutdown\r\n"));
    assert!(!is_shutdown_request(b"shutdown now"));
    assert!(!is_shutdown_request(b"Hello"));
    assert!(!is_shutdown_request(b""));
    assert!(!is_shutdown_request(b"\xffshutdown"));
}

#[test]
fn shutdown_request_unicode_space_test() {
    // U+00A0 and U+3000 are white space; U+200B is not
    assert!(is_shutdown_request("\u{a0}shutdown\u{3000}".as_bytes()));
    assert!(!is_shutdown_request("shutdown\u{200b}".as_bytes()));
}
