use riak_async::proto::kv::{
    RpbBucketProps, RpbCommitHook, RpbContent, RpbGetResp, RpbGetServerInfoResp, RpbLink, RpbModFun,
    RpbPair,
};
use riak_async::proto::yz::{RpbYokozunaIndex, RpbYokozunaSchema};
use riak_async::wire::{
    FieldData, WireKind, WireMessage, put_bytes_field, put_varint_field, read_field, skip_payload,
};

#[test]
fn varint_bytes_and_back() {
    let mut buf = Vec::new();
    put_varint_field(&mut buf, 1, 300);
    assert_eq!(buf, vec![0x08, 0xac, 0x02]);
    buf.push(0x07);
    let (f, rest) = read_field(&buf, 100).unwrap();
    assert_eq!(f.tag, 1);
    assert!(matches!(f.data, FieldData::Varint(300)));
    assert_eq!(rest, &[0x07]);
    let mut big = Vec::new();
    put_varint_field(&mut big, 1, u64::MAX);
    assert_eq!(big.len(), 11);
    assert!(matches!(read_field(&big, 100).unwrap().0.data, FieldData::Varint(u64::MAX)));
}

#[test]
fn varint_too_long_or_cut_is_refused() {
    // a tenth byte above 1 would not fit in 64 bits
    let bad = [0x08, 0xff, 0xff, 0xff, 0xff, 0xff, 0xff, 0xff, 0xff, 0xff, 0x02];
    assert!(read_field(&bad, 100).is_err());
    assert!(read_field(&[0x08, 0x80], 100).is_err());
    assert!(read_field(&[0x08], 100).is_err());
    assert!(read_field(&[], 100).is_err());
}

#[test]
fn key_bytes_and_back() {
    let mut buf = Vec::new();
    put_bytes_field(&mut buf, 20, b"ab");
    assert_eq!(buf, vec![0xa2, 0x01, 0x02, b'a', b'b']);
    let (f, rest) = read_field(&buf, 100).unwrap();
    assert_eq!(f.tag, 20);
    assert!(matches!(f.data, FieldData::Bytes(ref b) if b == b"ab"));
    assert!(rest.is_empty());
    // tag 0 and wire type 6 are refused
    assert!(read_field(&[0x02, 0x00], 100).is_err());
    assert!(read_field(&[0x0e, 0x00], 100).is_err());
}

#[test]
fn read_field_of_each_kind() {
    let (f, rest) = read_field(&[0x08, 0x96, 0x01, 0xff], 100).unwrap();
    assert_eq!(f.tag, 1);
    assert!(matches!(f.data, FieldData::Varint(150)));
    assert_eq!(rest, &[0xff]);
    let (f, _) = read_field(&[0x12, 0x02, b'h', b'i'], 100).unwrap();
    assert!(matches!(f.data, FieldData::Bytes(ref b) if b == b"hi"));
    let (f, _) = read_field(&[0x1d, 1, 0, 0, 0], 100).unwrap();
    assert!(matches!(f.data, FieldData::Fixed32(1)));
    let (f, _) = read_field(&[0x21, 2, 0, 0, 0, 0, 0, 0, 0], 100).unwrap();
    assert!(matches!(f.data, FieldData::Fixed64(2)));
    // a group with tag 3 holding a varint field, then its end key
    let (f, rest) = read_field(&[0x1b, 0x08, 0x01, 0x1c, 0x05], 100).unwrap();
    assert_eq!(f.tag, 3);
    assert!(matches!(f.data, FieldData::Group));
    assert_eq!(rest, &[0x05]);
    // an end key on its own, and a length past the end, are refused
    assert!(read_field(&[0x0c], 100).is_err());
    assert!(read_field(&[0x12, 0x05, b'h'], 100).is_err());
}

#[test]
fn schema_and_index_read_back() {
    let schema = RpbYokozunaSchema { name: b"s".to_vec(), content: Some(b"<xml/>".to_vec()) };
    let mut buf = Vec::new();
    schema.encode(&mut buf);
    let back = RpbYokozunaSchema::decode(&buf).unwrap();
    assert_eq!(back.name, schema.name);
    assert_eq!(back.content, schema.content);

    let idx = RpbYokozunaIndex { name: b"i".to_vec(), schema: None, n_val: Some(3) };
    let back = RpbYokozunaIndex::decode(&idx.encode_to_vec()).unwrap();
    assert_eq!(back.name, b"i".to_vec());
    assert_eq!(back.schema, None);
    assert_eq!(back.n_val, Some(3));
}

#[test]
fn content_reads_back() {
    let mut c = RpbContent::empty();
    c.value = b"value".to_vec();
    c.links.push(RpbLink { bucket: Some(b"b".to_vec()), key: None, tag: Some(b"t".to_vec()) });
    c.indexes.push(RpbPair { key: b"k_bin".to_vec(), value: Some(b"v".to_vec()) });
    c.deleted = Some(false);
    let back = RpbContent::decode(&c.encode_to_vec()).unwrap();
    assert_eq!(back.value, c.value);
    assert_eq!(back.links.len(), 1);
    assert_eq!(back.links[0].bucket, Some(b"b".to_vec()));
    assert_eq!(back.links[0].key, None);
    assert_eq!(back.indexes[0].key, b"k_bin".to_vec());
    assert_eq!(back.deleted, Some(false));
    assert_eq!(back.last_mod, None);
}

#[test]
fn bucket_props_read_back() {
    let mut p = RpbBucketProps::empty();
    p.n_val = Some(5);
    p.repl = Some(-1);
    p.precommit.push(RpbCommitHook {
        modfun: Some(RpbModFun { module: b"m".to_vec(), function: b"f".to_vec() }),
        name: None,
    });
    p.backend = Some(b"bitcask".to_vec());
    let bytes = p.encode_to_vec();
    let back = RpbBucketProps::decode(&bytes).unwrap();
    assert_eq!(back.n_val, Some(5));
    assert_eq!(back.repl, Some(-1));
    assert_eq!(back.precommit.len(), 1);
    assert_eq!(back.precommit[0].modfun.as_ref().unwrap().module, b"m".to_vec());
    assert_eq!(back.backend, Some(b"bitcask".to_vec()));
    assert_eq!(back.allow_mult, None);
}

#[test]
fn unknown_fields_are_skipped_and_wrong_kinds_refused() {
    // an unknown field (tag 9) then the name (tag 1)
    let bytes = [0x48, 0x05, 0x0a, 0x01, b'n'];
    let s = RpbYokozunaSchema::decode(&bytes).unwrap();
    assert_eq!(s.name, b"n".to_vec());
    // the name written as a varint is refused
    assert!(RpbYokozunaSchema::decode(&[0x08, 0x01]).is_err());
}

#[test]
fn a_later_field_replaces_an_earlier_one() {
    let bytes = [0x0a, 0x01, b'a', 0x0a, 0x01, b'b'];
    let s = RpbYokozunaSchema::decode(&bytes).unwrap();
    assert_eq!(s.name, b"b".to_vec());
}

#[test]
fn negative_enumeration_is_written_sign_extended() {
    let mut p = RpbBucketProps::empty();
    p.repl = Some(-1);
    // repl (24): key 192, then ten bytes for -1
    assert_eq!(
        p.encode_to_vec(),
        vec![0xc0, 0x01, 0xff, 0xff, 0xff, 0xff, 0xff, 0xff, 0xff, 0xff, 0xff, 0x01]
    );
}

#[test]
fn groups_use_up_the_nesting_allowance() {
    // an empty group with tag 3 needs one level, its fields one more each
    assert!(read_field(&[0x1b, 0x1c], 0).is_err());
    let (f, rest) = read_field(&[0x1b, 0x1c], 1).unwrap();
    assert!(matches!(f.data, FieldData::Group));
    assert!(rest.is_empty());
    assert!(read_field(&[0x1b, 0x08, 0x01, 0x1c], 1).is_err());
    assert!(read_field(&[0x1b, 0x08, 0x01, 0x1c], 2).is_ok());
    // a group inside a group
    assert!(read_field(&[0x1b, 0x13, 0x14, 0x1c], 1).is_err());
    assert!(read_field(&[0x1b, 0x13, 0x14, 0x1c], 2).is_ok());
    // an end key with another tag, and a group that never ends
    assert!(read_field(&[0x1b, 0x14], 100).is_err());
    assert!(read_field(&[0x1b, 0x08, 0x01], 100).is_err());
}

#[test]
fn skip_payload_of_each_kind() {
    assert_eq!(skip_payload(1, WireKind::Varint, &[0x96, 0x01, 7], 1).unwrap(), &[7]);
    assert_eq!(skip_payload(1, WireKind::LengthDelimited, &[2, b'a', b'b', 7], 1).unwrap(), &[7]);
    assert_eq!(skip_payload(1, WireKind::ThirtyTwoBit, &[0, 0, 0, 0, 7], 1).unwrap(), &[7]);
    assert_eq!(skip_payload(1, WireKind::SixtyFourBit, &[0; 9], 1).unwrap(), &[0]);
    assert_eq!(skip_payload(4, WireKind::StartGroup, &[0x24, 7], 1).unwrap(), &[7]);
    // no allowance left, or an end key where a payload should be
    assert!(skip_payload(1, WireKind::Varint, &[0x01], 0).is_err());
    assert!(skip_payload(1, WireKind::EndGroup, &[0x01], 100).is_err());
}

// groups with tag 15, which neither message below knows, one inside the other
fn nested_groups(levels: usize) -> Vec<u8> {
    let mut v = vec![0x7b; levels];
    v.extend(vec![0x7c; levels]);
    v
}

#[test]
fn unknown_groups_nest_as_deep_as_the_allowance() {
    // at the top level a message has the whole allowance of 100
    assert!(RpbGetServerInfoResp::decode(&nested_groups(100)).is_ok());
    assert!(RpbGetServerInfoResp::decode(&nested_groups(101)).is_err());
    // inside a nested message one level of it is used up
    let mut inside = Vec::new();
    put_bytes_field(&mut inside, 1, &nested_groups(99));
    assert!(RpbGetResp::decode(&inside).is_ok());
    let mut too_deep = Vec::new();
    put_bytes_field(&mut too_deep, 1, &nested_groups(100));
    assert!(RpbGetResp::decode(&too_deep).is_err());
}
