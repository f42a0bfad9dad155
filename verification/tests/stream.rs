use riak_async::codes;
use riak_async::connection::{ConnectionState, check_response};
use riak_async::errors::RiakErr;
use riak_async::stream::{
    StreamState, bucket_batch, bucket_list_request, flatten, key_batch, key_list_request,
    mapreduce_batch, mapreduce_part,
};

#[test]
fn stream_sends_its_request_once() {
    let mut s = StreamState::new(vec![1, 2, 3]);
    assert!(!s.is_done());
    assert_eq!(s.next_part(), Some(Some(vec![1, 2, 3])));
    assert_eq!(s.next_part(), Some(None));
    let mut conn = ConnectionState::new();
    s.record(true, &mut conn);
    assert_eq!(s.next_part(), None);
    assert_eq!(s.next_part(), None);
}

#[test]
fn last_part_marks_the_connection_done() {
    let mut conn = ConnectionState::new();
    conn.begin_send().unwrap();
    let mut s = StreamState::new(Vec::new());
    s.record(false, &mut conn);
    assert!(!s.is_done());
    assert!(conn.is_broken());
    s.record(true, &mut conn);
    assert!(s.is_done());
    assert!(!conn.is_broken());
}

#[test]
fn list_requests_bytes() {
    // stream (2) = true
    assert_eq!(bucket_list_request(), vec![0x10, 0x01]);
    // bucket (1)
    assert_eq!(key_list_request(b"b".to_vec()), vec![0x0a, 0x01, b'b']);
}

#[test]
fn batches_read_items_and_done() {
    let (names, done) = bucket_batch(&[0x0a, 1, b'a', 0x0a, 1, b'b']).unwrap();
    assert_eq!(names, vec![b"a".to_vec(), b"b".to_vec()]);
    assert!(!done);
    let (keys, done) = key_batch(&[0x0a, 1, b'k', 0x10, 1]).unwrap();
    assert_eq!(keys, vec![b"k".to_vec()]);
    assert!(done);
    let (data, done) = mapreduce_batch(&[0x08, 0, 0x18, 1]).unwrap();
    assert!(data.is_empty());
    assert!(done);
    assert!(matches!(key_batch(&[0x0a, 9]), Err(RiakErr::ProtobufError(_))));
}

#[test]
fn flatten_keeps_order() {
    let batches = vec![vec![b"a".to_vec(), b"b".to_vec()], vec![], vec![b"c".to_vec()]];
    assert_eq!(flatten(batches), vec![b"a".to_vec(), b"b".to_vec(), b"c".to_vec()]);
}

#[test]
fn failed_mapreduce_part_leaves_the_connection_broken() {
    // a part with another code: the server's error, and the connection broken
    let mut conn = ConnectionState::new();
    let mut s = StreamState::new(vec![1]);
    assert_eq!(s.next_part(), Some(Some(vec![1])));
    conn.begin_send().unwrap();
    match check_response(0, codes::MAP_RED_RESP, b"oops".to_vec()) {
        Err(RiakErr::ServerError(e)) => {
            assert_eq!(e.code, 0);
            assert_eq!(e.data, "oops");
        },
        _ => panic!("expected the server's error"),
    }
    assert!(conn.is_broken());
    // a part that does not decode: the same
    let part = check_response(codes::MAP_RED_RESP, codes::MAP_RED_RESP, vec![0x12, 9]).unwrap();
    assert!(matches!(mapreduce_batch(&part), Err(RiakErr::ProtobufError(_))));
    assert!(conn.is_broken());
    // a later job on the broken connection is refused before it sends
    let mut again = StreamState::new(vec![2]);
    assert_eq!(again.next_part(), Some(Some(vec![2])));
    assert!(conn.begin_send().is_err());
    assert!(conn.is_broken());
}

#[test]
fn finished_mapreduce_leaves_the_connection_usable() {
    let mut conn = ConnectionState::new();
    let mut s = StreamState::new(vec![1]);
    let mut results = Vec::new();
    let parts = [vec![0x12, 1, b'a'], vec![0x12, 1, b'b', 0x18, 1]];
    let mut i = 0;
    while let Some(req) = s.next_part() {
        if req.is_some() {
            conn.begin_send().unwrap();
        }
        let (data, done) = mapreduce_batch(&parts[i]).unwrap();
        results.push(data);
        s.record(done, &mut conn);
        i += 1;
    }
    conn.mark_stream_done();
    assert_eq!(results, vec![b"a".to_vec(), b"b".to_vec()]);
    assert!(!conn.is_broken());
}

#[test]
fn mapreduce_parts_are_recorded_or_stop_the_job() {
    let mut conn = ConnectionState::new();
    let mut s = StreamState::new(vec![1]);
    assert_eq!(s.next_part(), Some(Some(vec![1])));
    conn.begin_send().unwrap();
    // a part that is not the last
    let r = mapreduce_part(&mut s, &mut conn, Ok((codes::MAP_RED_RESP, vec![0x12, 1, b'a'])));
    assert_eq!(r.unwrap(), b"a".to_vec());
    assert!(!s.is_done());
    assert!(conn.is_broken());
    // a frame with another code stops the job: the server's error
    match mapreduce_part(&mut s, &mut conn, Ok((0, b"no".to_vec()))) {
        Err(RiakErr::ServerError(e)) => {
            assert_eq!(e.code, 0);
            assert_eq!(e.data, "no");
        },
        _ => panic!("expected the server's error"),
    }
    // so does a part that does not decode, or an error met while reading
    let r = mapreduce_part(&mut s, &mut conn, Ok((codes::MAP_RED_RESP, vec![0x12, 9])));
    assert!(matches!(r, Err(RiakErr::ProtobufError(_))));
    let r = mapreduce_part(&mut s, &mut conn, Err(RiakErr::ProtobufError(prost::DecodeError::new("cut"))));
    assert!(matches!(r, Err(RiakErr::ProtobufError(_))));
    assert!(!s.is_done());
    assert!(conn.is_broken());
    // the last part: nothing more is read, and the connection is usable
    let r = mapreduce_part(&mut s, &mut conn, Ok((codes::MAP_RED_RESP, vec![0x18, 1])));
    assert_eq!(r.unwrap(), Vec::<u8>::new());
    assert!(s.is_done());
    assert!(!conn.is_broken());
    assert_eq!(s.next_part(), None);
}
