use riak_async::client::{
    fetch_preflist_request, fetch_preflist_response, get_bucket_request, get_bucket_response,
    index_request, index_response, mapreduce_request, reset_bucket_request, search_response,
    server_info_response, yokozuna_index_get_request, yokozuna_index_get_response,
    yokozuna_schema_get_response, yokozuna_schema_put_request,
};
use riak_async::errors::RiakErr;
use riak_async::secondary_index::{IndexQueryType, IndexReq};

#[test]
fn server_info_reads_node_and_version() {
    let reply = [0x0a, 2, b'n', b'1', 0x12, 3, b'2', b'.', b'2'];
    let (node, version) = server_info_response(&reply).unwrap();
    assert_eq!(node, "n1");
    assert_eq!(version, "2.2");
    let (node, version) = server_info_response(&[]).unwrap();
    assert_eq!(node, "");
    assert_eq!(version, "");
}

#[test]
fn get_bucket_reads_properties_for_the_bucket() {
    assert_eq!(get_bucket_request(b"b"), vec![0x0a, 1, b'b']);
    // props (1) holding backend (22) "leveldb"
    let mut reply = vec![0x0a, 10, 0xb2, 0x01, 7];
    reply.extend_from_slice(b"leveldb");
    let props = get_bucket_response(b"b".to_vec(), &reply).unwrap();
    assert_eq!(props.get_backend(), Some(&b"leveldb"[..]));
    assert_eq!(props.get_bucket(), b"b");
    assert!(matches!(get_bucket_response(b"b".to_vec(), &[0x0a]), Err(RiakErr::ProtobufError(_))));
}

#[test]
fn reset_bucket_bytes() {
    // bucket (1), type (2)
    assert_eq!(reset_bucket_request(b"t".to_vec(), b"b".to_vec()), vec![0x0a, 1, b'b', 0x12, 1, b't']);
}

#[test]
fn preflist_request_and_reply() {
    assert_eq!(fetch_preflist_request(b"b".to_vec(), b"k".to_vec()), vec![0x0a, 1, b'b', 0x12, 1, b'k']);
    // preflist (1) holding partition (1) = 7, node (2) "n", primary (3) = true
    let reply = [0x0a, 7, 0x08, 7, 0x12, 1, b'n', 0x18, 1];
    let items = fetch_preflist_response(&reply).unwrap();
    assert_eq!(items.len(), 1);
    assert_eq!(items[0].partition, 7);
    assert_eq!(items[0].node, "n");
    assert!(items[0].is_primary);
}

#[test]
fn schema_request_and_reply() {
    assert_eq!(
        yokozuna_schema_put_request(b"s".to_vec(), b"c".to_vec()),
        vec![0x0a, 6, 0x0a, 1, b's', 0x12, 1, b'c']
    );
    let content = yokozuna_schema_get_response(&[0x0a, 6, 0x0a, 1, b's', 0x12, 1, b'c']).unwrap();
    assert_eq!(content, b"c".to_vec());
    let content = yokozuna_schema_get_response(&[0x0a, 3, 0x0a, 1, b's']).unwrap();
    assert!(content.is_empty());
}

#[test]
fn index_get_request_and_reply() {
    assert_eq!(yokozuna_index_get_request(b"i".to_vec()), vec![0x0a, 1, b'i']);
    let reply = [0x0a, 3, 0x0a, 1, b'a', 0x0a, 5, 0x0a, 1, b'b', 0x18, 3];
    let v = yokozuna_index_get_response(&reply).unwrap();
    assert_eq!(v.len(), 2);
    assert_eq!(v[0].get_name(), b"a");
    assert_eq!(v[1].get_name(), b"b");
    assert_eq!(v[1].get_n_val(), Some(3));
}

#[test]
fn search_reply_reads_pairs_score_and_count() {
    // docs (1) holding fields (1) holding key (1) "k"; max_score (2) = 1.5; num_found (3) = 1
    let mut reply = vec![0x0a, 5, 0x0a, 3, 0x0a, 1, b'k', 0x15];
    reply.extend_from_slice(&1.5f32.to_le_bytes());
    reply.extend_from_slice(&[0x18, 1]);
    let (pairs, max_score, num_found) = search_response(&reply).unwrap();
    assert_eq!(pairs, vec![(b"k".to_vec(), None)]);
    assert_eq!(max_score.map(f32::from_bits), Some(1.5));
    assert_eq!(num_found, Some(1));
}

#[test]
fn index_request_sets_stream() {
    let req = IndexReq::new("t", "b", "i", IndexQueryType::RANGE);
    // bucket (1), index (2), qtype (3) = 1, stream (8) = false, type (12)
    assert_eq!(
        index_request(req.clone(), false),
        vec![0x0a, 1, b'b', 0x12, 1, b'i', 0x18, 1, 0x40, 0, 0x62, 1, b't']
    );
    let bytes = index_request(req, true);
    assert_eq!(bytes[9], 1);
    let resp = index_response(&[0x0a, 1, b'k', 0x20, 1]).unwrap();
    let _ = resp;
}

#[test]
fn mapreduce_request_bytes() {
    assert_eq!(
        mapreduce_request(b"{}".to_vec(), b"application/json".to_vec())[..4],
        [0x0a, 2, b'{', b'}']
    );
}
