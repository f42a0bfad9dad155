use riak_async::proto::kv::RpbPair;
use riak_async::proto::yz::{RpbSearchDoc, RpbSearchQueryResp};
use riak_async::yokozuna::{SearchQuery, YokozunaIndex, search_pairs};

#[test]
fn yokozuna_index_serialize_bytes() {
    let mut idx = YokozunaIndex::new("idx");
    assert_eq!(idx.get_name(), b"idx");
    assert_eq!(idx.get_schema(), None);
    idx.set_n_val(3);
    assert_eq!(idx.get_n_val(), Some(3));
    // index (1) holding name (1) and n_val (3)
    assert_eq!(
        idx.serialize().unwrap(),
        vec![0x0a, 7, 0x0a, 3, b'i', b'd', b'x', 0x18, 3]
    );
}

#[test]
fn search_query_fl_stays_with_a_filter() {
    let mut q = SearchQuery::new("name_s:Lion*", "famous");
    q.set_fl(vec![b"name_s".to_vec()]);
    assert_eq!(q.get_fl(), Some(&[b"name_s".to_vec()][..]));
    q.set_filter("age_i:[30 TO *]");
    assert_eq!(q.get_fl(), Some(&[b"name_s".to_vec()][..]));
    assert_eq!(q.get_filter(), Some(&b"age_i:[30 TO *]"[..]));
    q.set_rows(10);
    assert_eq!(q.get_rows(), Some(10));
    assert_eq!(q.get_q(), b"name_s:Lion*");
    assert_eq!(q.get_index(), b"famous");
}

#[test]
fn search_query_serialize_bytes() {
    let mut q = SearchQuery::new("q", "i");
    q.set_start(2);
    q.set_presort("key");
    // q (1), index (2), start (4), presort (10)
    assert_eq!(
        q.serialize().unwrap(),
        vec![0x0a, 1, b'q', 0x12, 1, b'i', 0x20, 2, 0x52, 3, b'k', b'e', b'y']
    );
}

#[test]
fn search_pairs_flatten_documents() {
    let resp = RpbSearchQueryResp {
        docs: vec![
            RpbSearchDoc {
                fields: vec![
                    RpbPair { key: b"a".to_vec(), value: Some(b"1".to_vec()) },
                    RpbPair { key: b"b".to_vec(), value: None },
                ],
            },
            RpbSearchDoc { fields: vec![] },
            RpbSearchDoc { fields: vec![RpbPair { key: b"c".to_vec(), value: Some(b"3".to_vec()) }] },
        ],
        max_score: None,
        num_found: Some(2),
    };
    assert_eq!(
        search_pairs(&resp),
        vec![
            (b"a".to_vec(), Some(b"1".to_vec())),
            (b"b".to_vec(), None),
            (b"c".to_vec(), Some(b"3".to_vec())),
        ]
    );
}
