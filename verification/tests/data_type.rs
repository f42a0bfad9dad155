use std::time::Duration;

use riak_async::client::data_type_fetch_response;
use riak_async::data_type::{
    DataType, DataTypeFetchReq, DataTypeMapFieldType, DataTypeUpdateReq,
};
use riak_async::errors::RiakErr;

#[test]
fn data_type_codes() {
    assert_eq!(DataType::from_code(1), DataType::COUNTER);
    assert_eq!(DataType::from_code(2), DataType::SET);
    assert_eq!(DataType::from_code(3), DataType::MAP);
    assert_eq!(DataType::from_code(4), DataType::HLL);
    // a grow-only set, and an unknown code, read as a counter
    assert_eq!(DataType::from_code(5), DataType::COUNTER);
    assert_eq!(DataType::from_code(42), DataType::COUNTER);
    assert_eq!(DataTypeMapFieldType::from_code(3), DataTypeMapFieldType::REGISTER);
    assert_eq!(DataTypeMapFieldType::from_code(5), DataTypeMapFieldType::MAP);
    assert_eq!(DataTypeMapFieldType::from_code(0), DataTypeMapFieldType::COUNTER);
}

#[test]
fn fetch_req_bytes_and_timeout() {
    let mut req = DataTypeFetchReq::new("maps", "b", "k");
    assert_eq!(req.get_bucket_type(), b"maps");
    assert_eq!(req.get_timeout(), None);
    req.set_timeout(Duration::from_millis(1500));
    assert_eq!(req.get_timeout(), Some(Duration::from_millis(1500)));
    req.set_include_context(false);
    let mut other = DataTypeFetchReq::new("maps", "b", "k");
    other.set_timeout(Duration::from_micros(1500));
    assert_eq!(other.get_timeout(), Some(Duration::from_millis(1)));
    other.set_timeout(Duration::from_millis((1u64 << 32) + 5));
    assert_eq!(other.get_timeout(), Some(Duration::from_millis(5)));
    let bytes = req.serialize().unwrap();
    // bucket (1), key (2), type (3), timeout (8) = 1500, include_context (11) = false
    assert_eq!(
        bytes,
        vec![0x0a, 1, b'b', 0x12, 1, b'k', 0x1a, 4, b'm', b'a', b'p', b's', 0x40, 0xdc, 0x0b, 0x58, 0]
    );
    let _ = DataTypeUpdateReq::new("b", "maps");
}

#[test]
fn fetch_resp_reads_counter() {
    // context (1) "c", type (2) = 1, value (3) holding counter_value (1) = zigzag(-2) = 3
    let reply = [0x0a, 1, b'c', 0x10, 1, 0x1a, 2, 0x08, 3];
    let resp = data_type_fetch_response(&reply).unwrap();
    assert_eq!(resp.context, Some(b"c".to_vec()));
    assert_eq!(resp.data_type, DataType::COUNTER);
    let value = resp.value.unwrap();
    assert_eq!(value.counter_value, Some(-2));
    assert!(value.set_value.is_empty());
}

fn map_entry_bytes(name: &[u8], nested: Option<Vec<u8>>) -> Vec<u8> {
    // field (1) holding name (1) and type (2) = MAP (5)
    let mut field = vec![0x0a, name.len() as u8];
    field.extend_from_slice(name);
    field.extend_from_slice(&[0x10, 5]);
    let mut e = vec![0x0a, field.len() as u8];
    e.extend_from_slice(&field);
    if let Some(n) = nested {
        // map_value (6)
        e.push(0x32);
        let mut len = Vec::new();
        let mut v = n.len();
        loop {
            if v < 128 {
                len.push(v as u8);
                break;
            }
            len.push((v % 128 + 128) as u8);
            v /= 128;
        }
        e.extend_from_slice(&len);
        e.extend_from_slice(&n);
    }
    e
}

fn nested_map(depth: usize) -> Vec<u8> {
    let mut e = map_entry_bytes(b"leaf", None);
    for _ in 1..depth {
        e = map_entry_bytes(b"m", Some(e));
    }
    // type (2) = MAP, value (3) holding map_value (3) = the entry
    let mut value = vec![0x1a];
    let mut len = Vec::new();
    let mut v = e.len();
    loop {
        if v < 128 {
            len.push(v as u8);
            break;
        }
        len.push((v % 128 + 128) as u8);
        v /= 128;
    }
    value.extend_from_slice(&len);
    value.extend_from_slice(&e);
    let mut reply = vec![0x10, 3, 0x1a];
    let mut len = Vec::new();
    let mut v = value.len();
    loop {
        if v < 128 {
            len.push(v as u8);
            break;
        }
        len.push((v % 128 + 128) as u8);
        v /= 128;
    }
    reply.extend_from_slice(&len);
    reply.extend_from_slice(&value);
    reply
}

#[test]
fn fetch_resp_reads_nested_maps() {
    let resp = data_type_fetch_response(&nested_map(3)).unwrap();
    assert_eq!(resp.data_type, DataType::MAP);
    let value = resp.value.unwrap();
    assert_eq!(value.map_value.len(), 1);
    let top = &value.map_value[0];
    assert_eq!(top.field.name, b"m".to_vec());
    assert_eq!(top.field.field_type, DataTypeMapFieldType::MAP);
    let mid = &top.map_value[0];
    let leaf = &mid.map_value[0];
    assert_eq!(leaf.field.name, b"leaf".to_vec());
    assert!(leaf.map_value.is_empty());
    let copy = top.clone();
    assert_eq!(copy.map_value[0].map_value[0].field.name, b"leaf".to_vec());
    assert_eq!(copy.field.field_type, DataTypeMapFieldType::MAP);
}

#[test]
fn fetch_resp_refuses_maps_nested_past_the_limit() {
    // entries at depth 98 still read; at depth 99 their field is past the
    // nesting allowance
    assert!(data_type_fetch_response(&nested_map(98)).is_ok());
    match data_type_fetch_response(&nested_map(99)) {
        Err(RiakErr::ProtobufError(_)) => {}
        other => panic!("unexpected result: {other:?}"),
    }
}
