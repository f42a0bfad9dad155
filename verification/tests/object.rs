use riak_async::client::fetch_object_response;
use riak_async::errors::RiakErr;
use riak_async::object::{DeleteObjectReq, FetchObjectReq, Indexes, ObjectContent, StoreObjectReq};

#[test]
fn store_object_serialize_bytes() {
    let content = ObjectContent::new("v");
    let mut req = StoreObjectReq::new("b", content);
    req.set_key("k");
    let bytes = req.serialize().unwrap();
    // bucket (1), key (2), content (4) holding value (1)
    assert_eq!(bytes, vec![0x0a, 1, b'b', 0x12, 1, b'k', 0x22, 3, 0x0a, 1, b'v']);
}

#[test]
fn store_object_options_read_back() {
    let mut content = ObjectContent::new("Hello Riak!");
    content.set_content_type("text/plain");
    content.set_charset("UTF-8");
    let mut req = StoreObjectReq::new("bucket", content);
    req.set_bucket_type("type");
    req.set_key("key");
    req.set_dw(3);
    assert_eq!(req.get_bucket(), b"bucket");
    assert_eq!(req.get_bucket_type(), Some(&b"type"[..]));
    assert_eq!(req.get_key(), Some(&b"key"[..]));
    assert_eq!(req.get_dw(), Some(3));
    assert_eq!(req.get_w(), None);
    assert_eq!(req.get_content().get_value(), b"Hello Riak!");
    assert_eq!(req.get_content().get_content_type(), Some(&b"text/plain"[..]));
    assert_eq!(req.get_content().get_charset(), Some(&b"UTF-8"[..]));
}

#[test]
fn fetch_object_req_serialize_bytes() {
    let mut req = FetchObjectReq::new("b", "k");
    req.set_r(2);
    req.set_deleted_vclock(true);
    assert_eq!(req.get_deleted_vclock(), Some(true));
    let bytes = req.serialize().unwrap();
    // bucket (1), key (2), r (3) = 2, deletedvclock (9) = true
    assert_eq!(bytes, vec![0x0a, 1, b'b', 0x12, 1, b'k', 0x18, 2, 0x48, 1]);
}

#[test]
fn delete_object_req_serialize_bytes() {
    let mut req = DeleteObjectReq::new("b", "k");
    req.set_bucket_type("t");
    req.set_vclock(vec![0xff]);
    let bytes = req.serialize().unwrap();
    // bucket (1), key (2), vclock (4), type (13)
    assert_eq!(bytes, vec![0x0a, 1, b'b', 0x12, 1, b'k', 0x22, 1, 0xff, 0x6a, 1, b't']);
}

#[test]
fn indexes_read_back_what_is_set() {
    let mut content = ObjectContent::new("x");
    assert!(content.get_indexes().is_none());
    let idx = Indexes(vec![(b"email_bin".to_vec(), b"a@b".to_vec()), (b"age_int".to_vec(), b"3".to_vec())]);
    content.set_indexes(idx.clone());
    assert_eq!(content.get_indexes(), Some(idx));
}

#[test]
fn fetch_object_response_reads_siblings_and_vclock() {
    // content (1) holding value (1) "x", then vclock (2) "vc"
    let reply = vec![0x0a, 3, 0x0a, 1, b'x', 0x12, 2, b'v', b'c'];
    let resp = fetch_object_response(&reply).unwrap();
    assert_eq!(resp.content.len(), 1);
    assert_eq!(resp.content[0].get_value(), b"x");
    assert_eq!(resp.vclock, b"vc".to_vec());
    assert_eq!(resp.unchanged, None);
}

#[test]
fn fetch_object_response_without_vclock_has_empty_vclock() {
    let reply = vec![0x18, 1];
    let resp = fetch_object_response(&reply).unwrap();
    assert!(resp.content.is_empty());
    assert!(resp.vclock.is_empty());
    assert_eq!(resp.unchanged, Some(true));
}

#[test]
fn fetch_object_response_rejects_truncated_reply() {
    let reply = vec![0x0a, 5, 0x0a];
    match fetch_object_response(&reply) {
        Err(RiakErr::ProtobufError(_)) => {}
        other => panic!("unexpected result: {other:?}"),
    }
}
