use std::io::ErrorKind;

use riak_async::connection::{
    ConnectionState, check_response, frame_header, frame_length, message_length,
};
use riak_async::errors::RiakErr;

#[test]
fn frame_header_gives_length_and_code() {
    let h = frame_header(9, 3);
    assert_eq!(h, vec![0, 0, 0, 4, 9]);
    assert_eq!(frame_length(&h[..4]), 4);
    let h = frame_header(1, 0x1_0203);
    assert_eq!(h, vec![0, 1, 2, 4, 1]);
    assert_eq!(frame_length(&h[..4]), 0x1_0204);
    assert_eq!(&h[..4], &(0x1_0204u32).to_be_bytes());
}

#[test]
fn message_length_is_one_less_than_frame_length() {
    assert_eq!(message_length(1), Some(0));
    assert_eq!(message_length(10), Some(9));
    assert_eq!(message_length(0), None);
}

#[test]
fn check_response_gives_message_or_server_error() {
    assert_eq!(check_response(2, 2, vec![1, 2]).unwrap(), vec![1, 2]);
    match check_response(0, 2, b"bad request \xff".to_vec()) {
        Err(RiakErr::ServerError(e)) => {
            assert_eq!(e.code, 0);
            assert_eq!(e.data, "bad request \u{fffd}");
        }
        other => panic!("unexpected result: {other:?}"),
    }
}

#[test]
fn broken_connection_refuses_requests_until_renewed() {
    let mut c = ConnectionState::new();
    assert!(!c.is_broken());
    c.begin_send().unwrap();
    assert!(c.is_broken());
    match c.begin_send() {
        Err(RiakErr::IoError(e)) => assert_eq!(e.kind(), ErrorKind::BrokenPipe),
        other => panic!("unexpected result: {other:?}"),
    }
    assert!(c.is_broken());
    c.reconnected();
    assert!(!c.is_broken());
    c.begin_send().unwrap();
    // a reply of the wrong code fails the exchange and leaves the connection broken
    assert!(matches!(c.complete_exchange(Ok((0, Vec::new())), 2), Err(RiakErr::ServerError(_))));
    assert!(c.is_broken());
    c.reconnected();
    c.begin_send().unwrap();
    assert_eq!(c.complete_exchange(Ok((2, vec![7])), 2).unwrap(), vec![7]);
    assert!(!c.is_broken());
    c.begin_send().unwrap();
    c.mark_stream_done();
    assert!(!c.is_broken());
}
