//! Secondary index queries.
use crate::bytes::{IntoBytes, opt_slice_view};
use crate::errors::RiakErr;
use crate::proto::kv::{
    RpbIndexReq, RpbIndexReqView, RpbIndexResp, RpbIndexRespView, rpb_index_req_bytes,
    rpb_index_req_empty, rpb_index_resp_empty,
};
use crate::wire::bytes_seq_view;
use vstd::prelude::*;

verus! {

/// The kinds of secondary index query: an exact match, or a range.
#[allow(non_camel_case_types)]
#[derive(Clone, Copy, Debug, PartialEq, Eq, Structural)]
pub enum IndexQueryType {
    EQ,
    RANGE,
}

/// The code of a kind of query on the wire.
pub open spec fn index_query_code(q: IndexQueryType) -> i32 {
    match q {
        IndexQueryType::EQ => 0,
        IndexQueryType::RANGE => 1,
    }
}

impl IndexQueryType {
    /// The code of this kind of query on the wire.
    pub fn code(self) -> (r: i32)
        ensures
            r == index_query_code(self),
    {
        match self {
            IndexQueryType::EQ => 0,
            IndexQueryType::RANGE => 1,
        }
    }
}

/// A secondary index query.
#[derive(Clone, Debug)]
pub struct IndexReq(pub(crate) RpbIndexReq);

impl View for IndexReq {
    type V = RpbIndexReqView;

    closed spec fn view(&self) -> RpbIndexReqView {
        self.0@
    }
}

impl IndexReq {
    /// A query of kind `qtype` on index `index` of `bucket` in `bucket_type`.
    pub fn new<T: IntoBytes>(bucket_type: T, bucket: T, index: T, qtype: IndexQueryType) -> (r: IndexReq)
        ensures
            r@ == (RpbIndexReqView {
                bucket_type: Some(bucket_type.byte_view()),
                bucket: bucket.byte_view(),
                index: index.byte_view(),
                qtype: index_query_code(qtype),
                ..rpb_index_req_empty()
            }),
    {
        let mut req = RpbIndexReq::empty();
        req.bucket_type = Some(bucket_type.into_bytes());
        req.bucket = bucket.into_bytes();
        req.index = index.into_bytes();
        req.qtype = qtype.code();
        IndexReq(req)
    }

    /// The "pagination_sort" property.
    pub fn get_pagination_sort(&self) -> (r: Option<bool>)
        ensures
            r == self@.pagination_sort,
    {
        self.0.pagination_sort
    }

    /// Sets the "pagination_sort" property.
    pub fn set_pagination_sort(&mut self, pagination_sort: bool)
        ensures
            final(self)@ == (RpbIndexReqView { pagination_sort: Some(pagination_sort), ..old(self)@ }),
    {
        self.0.pagination_sort = Some(pagination_sort);
    }

    /// The "term_regex" property.
    pub fn get_term_regex(&self) -> (r: Option<&[u8]>)
        ensures
            opt_slice_view(r) == self@.term_regex,
    {
        match &self.0.term_regex {
            Some(v) => Some(v.as_slice()),
            None => None,
        }
    }

    /// Sets the "term_regex" property.
    pub fn set_term_regex<T: IntoBytes>(&mut self, term_regex: T)
        ensures
            final(self)@ == (RpbIndexReqView { term_regex: Some(term_regex.byte_view()), ..old(self)@ }),
    {
        self.0.term_regex = Some(term_regex.into_bytes());
    }

    /// The "key" property.
    pub fn get_key(&self) -> (r: Option<&[u8]>)
        ensures
            opt_slice_view(r) == self@.key,
    {
        match &self.0.key {
            Some(v) => Some(v.as_slice()),
            None => None,
        }
    }

    /// Sets the "key" property.
    pub fn set_key<T: IntoBytes>(&mut self, key: T)
        ensures
            final(self)@ == (RpbIndexReqView { key: Some(key.byte_view()), ..old(self)@ }),
    {
        self.0.key = Some(key.into_bytes());
    }

    /// The "stream" property.
    pub fn get_stream(&self) -> (r: Option<bool>)
        ensures
            r == self@.stream,
    {
        self.0.stream
    }

    /// Sets the "stream" property.
    pub fn set_stream(&mut self, stream: bool)
        ensures
            final(self)@ == (RpbIndexReqView { stream: Some(stream), ..old(self)@ }),
    {
        self.0.stream = Some(stream);
    }

    /// The bytes of the request.
    pub fn serialize(self) -> (r: Result<Vec<u8>, RiakErr>)
        ensures
            r matches Ok(b) && b@ == rpb_index_req_bytes(self@),
    {
        let req = self.0;
        Ok(req.encode_to_vec())
    }
}
/// The answer to a secondary index query.
#[derive(Clone, Debug)]
pub struct IndexResp(RpbIndexResp);

impl View for IndexResp {
    type V = RpbIndexRespView;

    closed spec fn view(&self) -> RpbIndexRespView {
        self.0@
    }
}

impl IndexResp {
    /// An answer that holds the keys `keys` and nothing else.
    pub fn new(keys: Vec<Vec<u8>>) -> (r: IndexResp)
        ensures
            r@ == (RpbIndexRespView { keys: bytes_seq_view(keys@), ..rpb_index_resp_empty() }),
    {
        let mut resp = RpbIndexResp::empty();
        resp.keys = keys;
        IndexResp(resp)
    }

    /// The answer of a reply of the wire.
    pub fn from_proto(resp: RpbIndexResp) -> (r: IndexResp)
        ensures
            r@ == resp@,
    {
        IndexResp(resp)
    }
}

} // verus!
