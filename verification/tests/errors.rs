use riak_async::errors::{RiakErr, ServerError, decimal_string};

#[test]
fn server_error_reads_message_as_text() {
    let e = ServerError::new(7, b"no such bucket");
    assert_eq!(e.code, 7);
    assert_eq!(e.data, "no such bucket");
    let e = ServerError::new(1, &[b'a', 0xc3, b'b']);
    assert_eq!(e.data, "a\u{fffd}b");
}

#[test]
fn error_messages() {
    let e = ServerError::new(7, b"no such bucket");
    assert_eq!(e.message(), "received code 7, error was: no such bucket");
    assert_eq!(RiakErr::ServerError(e).message(), "error from server: received code 7, error was: no such bucket");
    let io = std::io::Error::new(std::io::ErrorKind::Other, "boom");
    assert_eq!(RiakErr::IoError(io).message(), "error pinging riak: boom");
    assert_eq!(decimal_string(0), "0");
    assert_eq!(decimal_string(42), "42");
    assert_eq!(decimal_string(255), "255");
}
