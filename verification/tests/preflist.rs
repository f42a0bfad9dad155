use riak_async::preflist::PreflistItem;
use riak_async::proto::kv::RpbBucketKeyPreflistItem;

#[test]
fn preflist_item_new_and_from_wire() {
    let p = PreflistItem::new(-3, "riak@127.0.0.1", false);
    assert_eq!(p.partition, -3);
    assert_eq!(p.node, "riak@127.0.0.1");
    assert!(!p.is_primary);
    let w = RpbBucketKeyPreflistItem { partition: 5, node: vec![b'x', 0xff], primary: true };
    let p = PreflistItem::from_proto(&w);
    assert_eq!(p.partition, 5);
    assert_eq!(p.node, "x\u{fffd}");
    assert!(p.is_primary);
}
