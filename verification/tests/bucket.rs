use riak_async::bucket::{BucketProps, BucketTypeProps, CommitHooks};
use riak_async::proto::kv::{RpbCommitHook, RpbModFun};

#[test]
fn bucket_props() {
    // get_bucket() & set_bucket()
    let mut props = BucketProps::new("test_bucket");
    assert_eq!(b"test_bucket", props.get_bucket());
    props.set_bucket("test_bucket_two");
    assert_eq!(b"test_bucket_two", props.get_bucket());
}

#[test]
fn bucket_type_props() {
    let mut props = BucketTypeProps::new("test_bucket_type");
    assert_eq!(b"test_bucket_type", props.get_bucket());
    props.set_bucket("test_bucket_type_two");
    assert_eq!(b"test_bucket_type_two", props.get_bucket());
}

#[test]
fn bucket_props_read_back_what_is_set() {
    let mut props = BucketProps::new("b");
    assert_eq!(props.get_allow_mult(), None);
    assert_eq!(props.get_backend(), None);
    props.set_allow_mult(true);
    props.set_n_val(3);
    props.set_backend("leveldb");
    props.set_chash_keyfun("riak_core_util", "chash_std_keyfun");
    assert_eq!(props.get_allow_mult(), Some(true));
    assert_eq!(props.get_n_val(), Some(3));
    assert_eq!(props.get_backend(), Some(&b"leveldb"[..]));
    assert_eq!(
        props.get_chash_keyfun(),
        Some((&b"riak_core_util"[..], &b"chash_std_keyfun"[..]))
    );
    assert_eq!(props.get_w(), None);
    assert_eq!(props.get_bucket(), b"b");
}

#[test]
fn bucket_props_serialize_bytes() {
    let mut props = BucketProps::new("b");
    props.set_n_val(3);
    let bytes = props.serialize().unwrap();
    // bucket (tag 1), then props (tag 2) holding n_val (tag 1) = 3
    assert_eq!(bytes, vec![0x0a, 0x01, b'b', 0x12, 0x02, 0x08, 0x03]);
}

#[test]
fn bucket_type_props_serialize_bytes() {
    let mut props = BucketTypeProps::new("t");
    props.set_allow_mult(false);
    let bytes = props.serialize().unwrap();
    // type (tag 1), then props (tag 2) holding allow_mult (tag 2) = false
    assert_eq!(bytes, vec![0x0a, 0x01, b't', 0x12, 0x02, 0x10, 0x00]);
}

#[test]
fn commit_hooks_read_back_what_is_set() {
    let mut hooks = CommitHooks::new();
    hooks.insert("h1", "m1", "f1");
    hooks.insert("h2", "m2", "f2");
    let mut props = BucketProps::new("b");
    assert!(props.get_precommit().is_none());
    props.set_precommit(hooks.clone());
    let back = props.get_precommit().unwrap();
    assert_eq!(back.entries(), hooks.entries());
    assert_eq!(props.get_precommit(), Some(hooks.clone()));
    props.set_postcommit(CommitHooks::default());
    assert!(props.get_postcommit().is_none());
}

#[test]
fn commit_hooks_compare_as_maps() {
    let mut a = CommitHooks::new();
    a.insert("x", "m1", "f1");
    a.insert("y", "m2", "f2");
    let mut b = CommitHooks::default();
    b.insert("y", "m2", "f2");
    b.insert("x", "m1", "f1");
    assert_eq!(a, b);
    b.insert("x", "m1", "other");
    assert_ne!(a, b);
}

#[test]
fn commit_hooks_hold_a_name_once() {
    let mut hooks = CommitHooks::new();
    hooks.insert("h", "m1", "f1");
    hooks.insert("other", "m", "f");
    hooks.insert("h", "m2", "f2");
    assert_eq!(
        hooks.entries(),
        &[
            (b"h".to_vec(), (b"m2".to_vec(), b"f2".to_vec())),
            (b"other".to_vec(), (b"m".to_vec(), b"f".to_vec())),
        ]
    );
}

#[test]
fn commit_hooks_later_name_replaces_earlier() {
    let hooks = vec![
        RpbCommitHook {
            modfun: Some(RpbModFun { module: b"m1".to_vec(), function: b"f1".to_vec() }),
            name: Some(b"h".to_vec()),
        },
        RpbCommitHook { modfun: None, name: Some(b"other".to_vec()) },
        RpbCommitHook {
            modfun: Some(RpbModFun { module: b"m2".to_vec(), function: b"f2".to_vec() }),
            name: Some(b"h".to_vec()),
        },
    ];
    let got = CommitHooks::from_proto(&hooks).unwrap();
    assert_eq!(
        got.entries(),
        &[
            (b"h".to_vec(), (b"m2".to_vec(), b"f2".to_vec())),
            (b"other".to_vec(), (Vec::new(), Vec::new())),
        ][..]
    );
    assert!(CommitHooks::from_proto(&[]).is_none());
}

#[test]
fn byte_arrays_are_names_too() {
    let mut props = BucketProps::new(b"raw");
    assert_eq!(props.get_bucket(), b"raw");
    props.set_backend([b'l', b'v']);
    assert_eq!(props.get_backend(), Some(&b"lv"[..]));
}
