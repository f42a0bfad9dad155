//! The requests that a client sends and what it makes of the replies, one
//! pair for each operation of the client. Sending and reading are left to
//! the caller; these functions build the bytes of each request and read the
//! bytes of each reply.
use crate::bucket::{BucketProps, BucketTypeProps};
use crate::bytes::{copy_bytes, text_from_bytes, utf8_lossy};
use crate::data_type::{DataTypeFetchResp, data_type_fetch_resp_from_proto};
use crate::errors::RiakErr;
use crate::object::{FetchObjectResp, fetch_object_resp_from_proto};
use crate::preflist::PreflistItem;
use crate::proto::dt::{DtFetchResp, dt_fetch_resp_decode};
use crate::proto::kv::{
    RpbBucketKeyPreflistItemView, RpbGetBucketKeyPreflistReq, RpbGetBucketKeyPreflistReqView,
    RpbGetBucketKeyPreflistResp, RpbGetBucketReq, RpbGetBucketReqView, RpbGetBucketResp,
    RpbGetBucketTypeReq, RpbGetBucketTypeReqView, RpbGetResp, RpbGetServerInfoResp,
    RpbIndexReqView, RpbIndexResp, RpbMapRedReq, RpbMapRedReqView, RpbResetBucketReq, RpbResetBucketReqView,
    rpb_get_bucket_key_preflist_req_bytes, rpb_get_bucket_key_preflist_resp_decode,
    rpb_get_bucket_req_bytes, rpb_get_bucket_resp_decode, rpb_get_bucket_type_req_bytes,
    rpb_get_resp_decode, rpb_get_server_info_resp_decode, rpb_index_req_bytes, rpb_index_resp_decode,
    rpb_map_red_req_bytes, rpb_reset_bucket_req_bytes,
};
use crate::proto::yz::{
    RpbSearchQueryResp, RpbYokozunaIndexDeleteReq, RpbYokozunaIndexDeleteReqView,
    RpbYokozunaIndex, RpbYokozunaIndexGetReq, RpbYokozunaIndexGetReqView, RpbYokozunaIndexGetResp,
    RpbYokozunaSchema, RpbYokozunaSchemaGetReq, RpbYokozunaSchemaGetReqView,
    RpbYokozunaSchemaGetResp, RpbYokozunaSchemaPutReq, RpbYokozunaSchemaPutReqView,
    RpbYokozunaSchemaView, rpb_search_query_resp_decode, rpb_yokozuna_index_delete_req_bytes,
    rpb_yokozuna_index_get_req_bytes, rpb_yokozuna_index_get_resp_decode,
    rpb_yokozuna_schema_get_req_bytes, rpb_yokozuna_schema_get_resp_decode,
    rpb_yokozuna_schema_put_req_bytes,
};
use crate::secondary_index::{IndexReq, IndexResp};
use crate::wire::bytes_or_empty;
use crate::yokozuna::{YokozunaIndex, search_pair_view, search_pairs, search_pairs_of};
use vstd::prelude::*;

verus! {

/// The node name and server version of a server-info reply, read as text;
/// a missing one is read as empty.
pub fn server_info_response(reply: &[u8]) -> (r: Result<(String, String), RiakErr>)
    ensures
        match r {
            Ok((node, version)) => rpb_get_server_info_resp_decode(reply@) matches Some(m)
                && node@ == utf8_lossy(bytes_or_empty(m.node)) && version@ == utf8_lossy(
                bytes_or_empty(m.server_version),
            ),
            Err(e) => rpb_get_server_info_resp_decode(reply@) is None && e is ProtobufError,
        },
{
    match RpbGetServerInfoResp::decode(reply) {
        Ok(m) => {
            let node = match m.node {
                Some(n) => n,
                None => Vec::new(),
            };
            let version = match m.server_version {
                Some(v) => v,
                None => Vec::new(),
            };
            Ok((text_from_bytes(node.as_slice()), text_from_bytes(version.as_slice())))
        },
        Err(e) => Err(RiakErr::ProtobufError(e)),
    }
}

/// The request for the properties of `bucket`.
pub fn get_bucket_request(bucket: &[u8]) -> (r: Vec<u8>)
    ensures
        r@ == rpb_get_bucket_req_bytes(RpbGetBucketReqView { bucket: bucket@, bucket_type: None }),
{
    let req = RpbGetBucketReq { bucket: copy_bytes(bucket), bucket_type: None };
    req.encode_to_vec()
}

/// The properties of `bucket` that a reply holds.
pub fn get_bucket_response(bucket: Vec<u8>, reply: &[u8]) -> (r: Result<BucketProps, RiakErr>)
    ensures
        match r {
            Ok(p) => rpb_get_bucket_resp_decode(reply@) matches Some(m) && p@ == (m.props, bucket@),
            Err(e) => rpb_get_bucket_resp_decode(reply@) is None && e is ProtobufError,
        },
{
    match RpbGetBucketResp::decode(reply) {
        Ok(m) => Ok(BucketProps::new_with_props(bucket, m.props)),
        Err(e) => Err(RiakErr::ProtobufError(e)),
    }
}

/// The request for the properties of the bucket type `bucket_type`.
pub fn get_bucket_type_request(bucket_type: &[u8]) -> (r: Vec<u8>)
    ensures
        r@ == rpb_get_bucket_type_req_bytes(RpbGetBucketTypeReqView { bucket_type: bucket_type@ }),
{
    let req = RpbGetBucketTypeReq { bucket_type: copy_bytes(bucket_type) };
    req.encode_to_vec()
}

/// The properties of the bucket type `bucket_type` that a reply holds.
pub fn get_bucket_type_response(bucket_type: Vec<u8>, reply: &[u8]) -> (r: Result<
    BucketTypeProps,
    RiakErr,
>)
    ensures
        match r {
            Ok(p) => rpb_get_bucket_resp_decode(reply@) matches Some(m) && p@ == (m.props, bucket_type@),
            Err(e) => rpb_get_bucket_resp_decode(reply@) is None && e is ProtobufError,
        },
{
    match RpbGetBucketResp::decode(reply) {
        Ok(m) => Ok(BucketTypeProps::new_with_props(bucket_type, m.props)),
        Err(e) => Err(RiakErr::ProtobufError(e)),
    }
}

/// The request that resets the properties of `bucket` in `bucket_type`.
pub fn reset_bucket_request(bucket_type: Vec<u8>, bucket: Vec<u8>) -> (r: Vec<u8>)
    ensures
        r@ == rpb_reset_bucket_req_bytes(
            RpbResetBucketReqView { bucket: bucket@, bucket_type: Some(bucket_type@) },
        ),
{
    let req = RpbResetBucketReq { bucket, bucket_type: Some(bucket_type) };
    req.encode_to_vec()
}

/// The object that a fetch reply holds.
pub fn fetch_object_response(reply: &[u8]) -> (r: Result<FetchObjectResp, RiakErr>)
    ensures
        match r {
            Ok(o) => rpb_get_resp_decode(reply@) matches Some(m) && o@ == fetch_object_resp_from_proto(m),
            Err(e) => rpb_get_resp_decode(reply@) is None && e is ProtobufError,
        },
{
    match RpbGetResp::decode(reply) {
        Ok(m) => Ok(FetchObjectResp::from_proto(m)),
        Err(e) => Err(RiakErr::ProtobufError(e)),
    }
}

/// The request for the preference list of `key` in `bucket`.
pub fn fetch_preflist_request(bucket: Vec<u8>, key: Vec<u8>) -> (r: Vec<u8>)
    ensures
        r@ == rpb_get_bucket_key_preflist_req_bytes(
            RpbGetBucketKeyPreflistReqView { bucket: bucket@, key: key@, bucket_type: None },
        ),
{
    let req = RpbGetBucketKeyPreflistReq { bucket, key, bucket_type: None };
    req.encode_to_vec()
}

/// An item of a preference list matches the item of the wire it was read
/// from.
pub open spec fn preflist_item_matches(p: PreflistItem, v: RpbBucketKeyPreflistItemView) -> bool {
    &&& p.partition == v.partition
    &&& p.node@ == utf8_lossy(v.node)
    &&& p.is_primary == v.primary
}

/// The preference list that a reply holds, one item per item of the wire,
/// in order.
pub fn fetch_preflist_response(reply: &[u8]) -> (r: Result<Vec<PreflistItem>, RiakErr>)
    ensures
        match r {
            Ok(items) => rpb_get_bucket_key_preflist_resp_decode(reply@) matches Some(m)
                && items@.len() == m.preflist.len() && forall|j: int|
                0 <= j < items@.len() ==> preflist_item_matches(#[trigger] items@[j], m.preflist[j]),
            Err(e) => rpb_get_bucket_key_preflist_resp_decode(reply@) is None && e is ProtobufError,
        },
{
    match RpbGetBucketKeyPreflistResp::decode(reply) {
        Ok(m) => {
            let mut items: Vec<PreflistItem> = Vec::new();
            let mut i: usize = 0;
            while i < m.preflist.len()
                invariant
                    i <= m.preflist@.len(),
                    items@.len() == i,
                    forall|j: int|
                        0 <= j < i ==> preflist_item_matches(#[trigger] items@[j], m@.preflist[j]),
                decreases m.preflist@.len() - i,
            {
                items.push(PreflistItem::from_proto(&m.preflist[i]));
                i = i + 1;
            }
            Ok(items)
        },
        Err(e) => Err(RiakErr::ProtobufError(e)),
    }
}

/// The request that stores the search schema `name` with `content`.
pub fn yokozuna_schema_put_request(name: Vec<u8>, content: Vec<u8>) -> (r: Vec<u8>)
    ensures
        r@ == rpb_yokozuna_schema_put_req_bytes(
            RpbYokozunaSchemaPutReqView {
                schema: RpbYokozunaSchemaView { name: name@, content: Some(content@) },
            },
        ),
{
    let req = RpbYokozunaSchemaPutReq { schema: RpbYokozunaSchema { name, content: Some(content) } };
    req.encode_to_vec()
}

/// The request for the search schema `name`.
pub fn yokozuna_schema_get_request(name: Vec<u8>) -> (r: Vec<u8>)
    ensures
        r@ == rpb_yokozuna_schema_get_req_bytes(RpbYokozunaSchemaGetReqView { name: name@ }),
{
    let req = RpbYokozunaSchemaGetReq { name };
    req.encode_to_vec()
}

/// The content of the search schema that a reply holds; empty where there
/// is none.
pub fn yokozuna_schema_get_response(reply: &[u8]) -> (r: Result<Vec<u8>, RiakErr>)
    ensures
        match r {
            Ok(c) => rpb_yokozuna_schema_get_resp_decode(reply@) matches Some(m) && c@
                == bytes_or_empty(m.schema.content),
            Err(e) => rpb_yokozuna_schema_get_resp_decode(reply@) is None && e is ProtobufError,
        },
{
    match RpbYokozunaSchemaGetResp::decode(reply) {
        Ok(m) => match m.schema.content {
            Some(c) => Ok(c),
            None => Ok(Vec::new()),
        },
        Err(e) => Err(RiakErr::ProtobufError(e)),
    }
}

/// The request for the search index `name`.
pub fn yokozuna_index_get_request(name: Vec<u8>) -> (r: Vec<u8>)
    ensures
        r@ == rpb_yokozuna_index_get_req_bytes(RpbYokozunaIndexGetReqView { name: Some(name@) }),
{
    let req = RpbYokozunaIndexGetReq { name: Some(name) };
    req.encode_to_vec()
}

/// The search indexes that a reply holds, in order.
pub fn yokozuna_index_get_response(reply: &[u8]) -> (r: Result<Vec<YokozunaIndex>, RiakErr>)
    ensures
        match r {
            Ok(v) => rpb_yokozuna_index_get_resp_decode(reply@) matches Some(m) && v@.map_values(
                |x: YokozunaIndex| x@,
            ) == m.index,
            Err(e) => rpb_yokozuna_index_get_resp_decode(reply@) is None && e is ProtobufError,
        },
{
    match RpbYokozunaIndexGetResp::decode(reply) {
        Ok(m) => {
            let ghost iv = m@.index;
            let mut out: Vec<YokozunaIndex> = Vec::new();
            for x in it: m.index.into_iter()
                invariant
                    it.seq() == m.index@,
                    iv == m.index@.map_values(|x: RpbYokozunaIndex| x@),
                    out@.len() == it.index(),
                    forall|j: int| 0 <= j < it.index() ==> (#[trigger] out@[j])@ == iv[j],
            {
                out.push(YokozunaIndex::from_proto(x));
            }
            proof {
                assert(out@.map_values(|x: YokozunaIndex| x@) =~= iv);
            }
            Ok(out)
        },
        Err(e) => Err(RiakErr::ProtobufError(e)),
    }
}

/// The request that deletes the search index `name`.
pub fn yokozuna_index_delete_request(name: Vec<u8>) -> (r: Vec<u8>)
    ensures
        r@ == rpb_yokozuna_index_delete_req_bytes(RpbYokozunaIndexDeleteReqView { name: name@ }),
{
    let req = RpbYokozunaIndexDeleteReq { name };
    req.encode_to_vec()
}

/// What a search reply holds: the fields of the documents found, one pair
/// per field; the bits of the maximum score; and the number found.
pub fn search_response(reply: &[u8]) -> (r: Result<
    (Vec<(Vec<u8>, Option<Vec<u8>>)>, Option<u32>, Option<u32>),
    RiakErr,
>)
    ensures
        match r {
            Ok((pairs, max_score, num_found)) => rpb_search_query_resp_decode(reply@) matches Some(m)
                && pairs@.map_values(|p: (Vec<u8>, Option<Vec<u8>>)| search_pair_view(p))
                == search_pairs_of(m.docs) && max_score == m.max_score && num_found == m.num_found,
            Err(e) => rpb_search_query_resp_decode(reply@) is None && e is ProtobufError,
        },
{
    match RpbSearchQueryResp::decode(reply) {
        Ok(m) => Ok((search_pairs(&m), m.max_score, m.num_found)),
        Err(e) => Err(RiakErr::ProtobufError(e)),
    }
}

/// The request that runs the MapReduce job `request`, written in
/// `content_type`.
pub fn mapreduce_request(request: Vec<u8>, content_type: Vec<u8>) -> (r: Vec<u8>)
    ensures
        r@ == rpb_map_red_req_bytes(
            RpbMapRedReqView { request: request@, content_type: content_type@ },
        ),
{
    let req = RpbMapRedReq { request, content_type };
    req.encode_to_vec()
}

/// The data type that a fetch reply holds.
pub fn data_type_fetch_response(reply: &[u8]) -> (r: Result<DataTypeFetchResp, RiakErr>)
    ensures
        match r {
            Ok(d) => dt_fetch_resp_decode(reply@) matches Some(m) && d@
                == data_type_fetch_resp_from_proto(m),
            Err(e) => dt_fetch_resp_decode(reply@) is None && e is ProtobufError,
        },
{
    match DtFetchResp::decode(reply) {
        Ok(m) => Ok(DataTypeFetchResp::from_proto(&m)),
        Err(e) => Err(RiakErr::ProtobufError(e)),
    }
}

/// The request for a secondary index query, streamed or not.
pub fn index_request(req: IndexReq, stream: bool) -> (r: Vec<u8>)
    ensures
        r@ == rpb_index_req_bytes(RpbIndexReqView { stream: Some(stream), ..req@ }),
{
    let mut req = req;
    req.set_stream(stream);
    match req.serialize() {
        Ok(b) => b,
        Err(_) => Vec::new(),
    }
}

/// The answer that the reply to a secondary index query holds.
pub fn index_response(reply: &[u8]) -> (r: Result<IndexResp, RiakErr>)
    ensures
        match r {
            Ok(x) => rpb_index_resp_decode(reply@) matches Some(m) && x@ == m,
            Err(e) => rpb_index_resp_decode(reply@) is None && e is ProtobufError,
        },
{
    match RpbIndexResp::decode(reply) {
        Ok(m) => Ok(IndexResp::from_proto(m)),
        Err(e) => Err(RiakErr::ProtobufError(e)),
    }
}

} // verus!
