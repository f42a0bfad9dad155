//! Objects: the requests that store, fetch and delete them, and their
//! content.
//!
//! For more information: https://docs.basho.com/riak/kv/latest/developing/usage/creating-objects/
use crate::bytes::{IntoBytes, copy_bytes, opt_slice_view};
use crate::errors::RiakErr;
use crate::proto::kv::{
    RpbContent, RpbContentView, RpbDelReq, RpbDelReqView, RpbGetReq, RpbGetReqView, RpbGetResp,
    RpbGetRespView, RpbPair, RpbPairView, RpbPutReq, RpbPutReqView, rpb_content_empty,
    rpb_del_req_bytes, rpb_del_req_empty, rpb_get_req_bytes, rpb_get_req_empty, rpb_put_req_bytes,
    rpb_put_req_empty,
};
use crate::wire::opt_bytes_view;
use vstd::prelude::*;

verus! {

/// A list of key-value index pairs.
#[derive(Clone, Debug, Default, PartialEq, Eq)]
pub struct Indexes(pub Vec<(Vec<u8>, Vec<u8>)>);

/// The value of an index pair.
pub open spec fn index_pair_view(p: (Vec<u8>, Vec<u8>)) -> (Seq<u8>, Seq<u8>) {
    (p.0@, p.1@)
}

impl View for Indexes {
    type V = Seq<(Seq<u8>, Seq<u8>)>;

    open spec fn view(&self) -> Seq<(Seq<u8>, Seq<u8>)> {
        self.0@.map_values(|p: (Vec<u8>, Vec<u8>)| index_pair_view(p))
    }
}

/// The index pair of a pair of the wire: a missing value is read as empty.
pub open spec fn index_pair_from_proto(p: RpbPairView) -> (Seq<u8>, Seq<u8>) {
    (
        p.key,
        match p.value {
            Some(v) => v,
            None => Seq::empty(),
        },
    )
}

/// The index pairs of pairs of the wire, in order.
pub open spec fn indexes_from_proto(s: Seq<RpbPairView>) -> Seq<(Seq<u8>, Seq<u8>)> {
    s.map_values(|p: RpbPairView| index_pair_from_proto(p))
}

/// The pairs of the wire for index pairs, in order, each with its value.
pub open spec fn indexes_to_proto(s: Seq<(Seq<u8>, Seq<u8>)>) -> Seq<RpbPairView> {
    s.map_values(|p: (Seq<u8>, Seq<u8>)| RpbPairView { key: p.0, value: Some(p.1) })
}

/// Reading back the pairs of the wire that index pairs give yields the same
/// index pairs.
pub proof fn lemma_indexes_roundtrip(s: Seq<(Seq<u8>, Seq<u8>)>)
    ensures
        indexes_from_proto(indexes_to_proto(s)) == s,
{
    assert(indexes_from_proto(indexes_to_proto(s)) =~= s);
}

impl Indexes {
    /// The index pairs of pairs of the wire, or `None` where there is none.
    pub fn from_proto(pairs: &[RpbPair]) -> (r: Option<Self>)
        ensures
            match r {
                Some(x) => pairs@.len() > 0 && x@ == indexes_from_proto(
                    pairs@.map_values(|p: RpbPair| p@),
                ),
                None => pairs@.len() == 0,
            },
    {
        if pairs.len() == 0 {
            return None;
        }
        let mut out: Vec<(Vec<u8>, Vec<u8>)> = Vec::new();
        let ghost pv = pairs@.map_values(|p: RpbPair| p@);
        let mut i: usize = 0;
        while i < pairs.len()
            invariant
                i <= pairs@.len(),
                pv == pairs@.map_values(|p: RpbPair| p@),
                out@.map_values(|p: (Vec<u8>, Vec<u8>)| index_pair_view(p)) == indexes_from_proto(
                    pv.take(i as int),
                ),
            decreases pairs@.len() - i,
        {
            let p = &pairs[i];
            let value: Vec<u8> = match &p.value {
                Some(v) => copy_bytes(v.as_slice()),
                None => Vec::new(),
            };
            let pair = (copy_bytes(p.key.as_slice()), value);
            let ghost prev = out@.map_values(|p: (Vec<u8>, Vec<u8>)| index_pair_view(p));
            out.push(pair);
            proof {
                assert(indexes_from_proto(pv.take(i + 1)) =~= prev.push(index_pair_view(pair)));
                assert(out@.map_values(|p: (Vec<u8>, Vec<u8>)| index_pair_view(p)) =~= prev.push(
                    index_pair_view(pair),
                ));
            }
            i = i + 1;
        }
        proof {
            assert(pv.take(i as int) =~= pv);
        }
        Some(Indexes(out))
    }

    /// The pairs of the wire for these index pairs, in order.
    pub fn into_proto(self) -> (r: Vec<RpbPair>)
        ensures
            r@.map_values(|p: RpbPair| p@) == indexes_to_proto(self@),
    {
        let mut out: Vec<RpbPair> = Vec::new();
        let mut i: usize = 0;
        while i < self.0.len()
            invariant
                i <= self.0@.len(),
                out@.map_values(|p: RpbPair| p@) == indexes_to_proto(self@).take(i as int),
            decreases self.0@.len() - i,
        {
            let e = &self.0[i];
            let pair = RpbPair { key: copy_bytes(e.0.as_slice()), value: Some(copy_bytes(e.1.as_slice())) };
            let ghost prev = out@.map_values(|p: RpbPair| p@);
            out.push(pair);
            proof {
                assert(indexes_to_proto(self@).take(i + 1) =~= prev.push(indexes_to_proto(self@)[i as int]));
                assert(out@.map_values(|p: RpbPair| p@) =~= prev.push(pair@));
            }
            i = i + 1;
        }
        proof {
            assert(indexes_to_proto(self@).take(i as int) =~= indexes_to_proto(self@));
        }
        out
    }
}

/// A request to delete an object.
#[derive(Clone, Debug)]
pub struct DeleteObjectReq(RpbDelReq);

impl View for DeleteObjectReq {
    type V = RpbDelReqView;

    closed spec fn view(&self) -> RpbDelReqView {
        self.0@
    }
}

impl DeleteObjectReq {
    /// A request to delete the object at `key` in `bucket`.
    pub fn new<T: IntoBytes>(bucket: T, key: T) -> (r: DeleteObjectReq)
        ensures
            r@ == (RpbDelReqView { bucket: bucket.byte_view(), key: key.byte_view(), ..rpb_del_req_empty() }),
    {
        let mut req = RpbDelReq::empty();
        req.bucket = bucket.into_bytes();
        req.key = key.into_bytes();
        DeleteObjectReq(req)
    }

    /// The "bucket_type" property.
    pub fn get_bucket_type(&self) -> (r: Option<&[u8]>)
        ensures
            opt_slice_view(r) == self@.bucket_type,
    {
        match &self.0.bucket_type {
            Some(v) => Some(v.as_slice()),
            None => None,
        }
    }

    /// Sets the "bucket_type" property.
    pub fn set_bucket_type<T: IntoBytes>(&mut self, bucket_type: T)
        ensures
            final(self)@ == (RpbDelReqView { bucket_type: Some(bucket_type.byte_view()), ..old(self)@ }),
    {
        self.0.bucket_type = Some(bucket_type.into_bytes());
    }

    /// The "bucket" property.
    pub fn get_bucket(&self) -> (r: &[u8])
        ensures
            r@ == self@.bucket,
    {
        self.0.bucket.as_slice()
    }

    /// Sets the "bucket" property.
    pub fn set_bucket<T: IntoBytes>(&mut self, bucket: T)
        ensures
            final(self)@ == (RpbDelReqView { bucket: bucket.byte_view(), ..old(self)@ }),
    {
        self.0.bucket = bucket.into_bytes();
    }

    /// The "key" property.
    pub fn get_key(&self) -> (r: &[u8])
        ensures
            r@ == self@.key,
    {
        self.0.key.as_slice()
    }

    /// Sets the "key" property.
    pub fn set_key<T: IntoBytes>(&mut self, key: T)
        ensures
            final(self)@ == (RpbDelReqView { key: key.byte_view(), ..old(self)@ }),
    {
        self.0.key = key.into_bytes();
    }

    /// The "dw" property.
    pub fn get_dw(&self) -> (r: Option<u32>)
        ensures
            r == self@.dw,
    {
        self.0.dw
    }

    /// Sets the "dw" property.
    pub fn set_dw(&mut self, dw: u32)
        ensures
            final(self)@ == (RpbDelReqView { dw: Some(dw), ..old(self)@ }),
    {
        self.0.dw = Some(dw);
    }

    /// The "pr" property.
    pub fn get_pr(&self) -> (r: Option<u32>)
        ensures
            r == self@.pr,
    {
        self.0.pr
    }

    /// Sets the "pr" property.
    pub fn set_pr(&mut self, pr: u32)
        ensures
            final(self)@ == (RpbDelReqView { pr: Some(pr), ..old(self)@ }),
    {
        self.0.pr = Some(pr);
    }

    /// The "pw" property.
    pub fn get_pw(&self) -> (r: Option<u32>)
        ensures
            r == self@.pw,
    {
        self.0.pw
    }

    /// Sets the "pw" property.
    pub fn set_pw(&mut self, pw: u32)
        ensures
            final(self)@ == (RpbDelReqView { pw: Some(pw), ..old(self)@ }),
    {
        self.0.pw = Some(pw);
    }

    /// The "rw" property.
    pub fn get_rw(&self) -> (r: Option<u32>)
        ensures
            r == self@.rw,
    {
        self.0.rw
    }

    /// Sets the "rw" property.
    pub fn set_rw(&mut self, rw: u32)
        ensures
            final(self)@ == (RpbDelReqView { rw: Some(rw), ..old(self)@ }),
    {
        self.0.rw = Some(rw);
    }

    /// The "r" property.
    pub fn get_r(&self) -> (r: Option<u32>)
        ensures
            r == self@.r,
    {
        self.0.r
    }

    /// Sets the "r" property.
    pub fn set_r(&mut self, r: u32)
        ensures
            final(self)@ == (RpbDelReqView { r: Some(r), ..old(self)@ }),
    {
        self.0.r = Some(r);
    }

    /// The "w" property.
    pub fn get_w(&self) -> (r: Option<u32>)
        ensures
            r == self@.w,
    {
        self.0.w
    }

    /// Sets the "w" property.
    pub fn set_w(&mut self, w: u32)
        ensures
            final(self)@ == (RpbDelReqView { w: Some(w), ..old(self)@ }),
    {
        self.0.w = Some(w);
    }

    /// The "n_val" property.
    pub fn get_n_val(&self) -> (r: Option<u32>)
        ensures
            r == self@.n_val,
    {
        self.0.n_val
    }

    /// Sets the "n_val" property.
    pub fn set_n_val(&mut self, n_val: u32)
        ensures
            final(self)@ == (RpbDelReqView { n_val: Some(n_val), ..old(self)@ }),
    {
        self.0.n_val = Some(n_val);
    }

    /// The "sloppy_quorum" property.
    pub fn get_sloppy_quorum(&self) -> (r: Option<bool>)
        ensures
            r == self@.sloppy_quorum,
    {
        self.0.sloppy_quorum
    }

    /// Sets the "sloppy_quorum" property.
    pub fn set_sloppy_quorum(&mut self, sloppy_quorum: bool)
        ensures
            final(self)@ == (RpbDelReqView { sloppy_quorum: Some(sloppy_quorum), ..old(self)@ }),
    {
        self.0.sloppy_quorum = Some(sloppy_quorum);
    }

    /// The "timeout" property.
    pub fn get_timeout(&self) -> (r: Option<u32>)
        ensures
            r == self@.timeout,
    {
        self.0.timeout
    }

    /// Sets the "timeout" property.
    pub fn set_timeout(&mut self, timeout: u32)
        ensures
            final(self)@ == (RpbDelReqView { timeout: Some(timeout), ..old(self)@ }),
    {
        self.0.timeout = Some(timeout);
    }

    /// The "vclock" property.
    pub fn get_vclock(&self) -> (r: Option<&[u8]>)
        ensures
            opt_slice_view(r) == self@.vclock,
    {
        match &self.0.vclock {
            Some(v) => Some(v.as_slice()),
            None => None,
        }
    }

    /// Sets the "vclock" property.
    pub fn set_vclock<T: IntoBytes>(&mut self, vclock: T)
        ensures
            final(self)@ == (RpbDelReqView { vclock: Some(vclock.byte_view()), ..old(self)@ }),
    {
        self.0.vclock = Some(vclock.into_bytes());
    }

    /// The bytes of the request.
    pub fn serialize(self) -> (r: Result<Vec<u8>, RiakErr>)
        ensures
            r matches Ok(b) && b@ == rpb_del_req_bytes(self@),
    {
        let req = self.0;
        Ok(req.encode_to_vec())
    }
}
/// A request to store an object: the request's options, and the content to
/// store.
#[derive(Clone, Debug)]
pub struct StoreObjectReq(RpbPutReq, ObjectContent);

impl View for StoreObjectReq {
    type V = (RpbPutReqView, RpbContentView);

    closed spec fn view(&self) -> (RpbPutReqView, RpbContentView) {
        (self.0@, self.1@)
    }
}

impl StoreObjectReq {
    /// A request to store `content` in `bucket`.
    pub fn new<T: IntoBytes>(bucket: T, content: ObjectContent) -> (r: StoreObjectReq)
        ensures
            r@ == (RpbPutReqView { bucket: bucket.byte_view(), ..rpb_put_req_empty() }, content@),
    {
        let mut req = RpbPutReq::empty();
        req.bucket = bucket.into_bytes();
        StoreObjectReq(req, content)
    }

    /// The content to store.
    pub fn get_content(&self) -> (r: &ObjectContent)
        ensures
            r@ == self@.1,
    {
        &self.1
    }

    /// Sets the content to store.
    pub fn set_content(&mut self, content: ObjectContent)
        ensures
            final(self)@ == (old(self)@.0, content@),
    {
        self.1 = content;
    }

    /// The "bucket" property.
    pub fn get_bucket(&self) -> (r: &[u8])
        ensures
            r@ == self@.0.bucket,
    {
        self.0.bucket.as_slice()
    }

    /// Sets the "bucket" property.
    pub fn set_bucket<T: IntoBytes>(&mut self, bucket: T)
        ensures
            final(self)@ == (RpbPutReqView { bucket: bucket.byte_view(), ..old(self)@.0 }, old(self)@.1),
    {
        self.0.bucket = bucket.into_bytes();
    }

    /// The "asis" property.
    pub fn get_asis(&self) -> (r: Option<bool>)
        ensures
            r == self@.0.asis,
    {
        self.0.asis
    }

    /// Sets the "asis" property.
    pub fn set_asis(&mut self, asis: bool)
        ensures
            final(self)@ == (RpbPutReqView { asis: Some(asis), ..old(self)@.0 }, old(self)@.1),
    {
        self.0.asis = Some(asis);
    }

    /// The "bucket_type" property.
    pub fn get_bucket_type(&self) -> (r: Option<&[u8]>)
        ensures
            opt_slice_view(r) == self@.0.bucket_type,
    {
        match &self.0.bucket_type {
            Some(v) => Some(v.as_slice()),
            None => None,
        }
    }

    /// Sets the "bucket_type" property.
    pub fn set_bucket_type<T: IntoBytes>(&mut self, bucket_type: T)
        ensures
            final(self)@ == (RpbPutReqView { bucket_type: Some(bucket_type.byte_view()), ..old(self)@.0 }, old(self)@.1),
    {
        self.0.bucket_type = Some(bucket_type.into_bytes());
    }

    /// The "if_none_match" property.
    pub fn get_if_none_match(&self) -> (r: Option<bool>)
        ensures
            r == self@.0.if_none_match,
    {
        self.0.if_none_match
    }

    /// Sets the "if_none_match" property.
    pub fn set_if_none_match(&mut self, if_none_match: bool)
        ensures
            final(self)@ == (RpbPutReqView { if_none_match: Some(if_none_match), ..old(self)@.0 }, old(self)@.1),
    {
        self.0.if_none_match = Some(if_none_match);
    }

    /// The "if_not_modified" property.
    pub fn get_if_not_modified(&self) -> (r: Option<bool>)
        ensures
            r == self@.0.if_not_modified,
    {
        self.0.if_not_modified
    }

    /// Sets the "if_not_modified" property.
    pub fn set_if_not_modified(&mut self, if_not_modified: bool)
        ensures
            final(self)@ == (RpbPutReqView { if_not_modified: Some(if_not_modified), ..old(self)@.0 }, old(self)@.1),
    {
        self.0.if_not_modified = Some(if_not_modified);
    }

    /// The "key" property.
    pub fn get_key(&self) -> (r: Option<&[u8]>)
        ensures
            opt_slice_view(r) == self@.0.key,
    {
        match &self.0.key {
            Some(v) => Some(v.as_slice()),
            None => None,
        }
    }

    /// Sets the "key" property.
    pub fn set_key<T: IntoBytes>(&mut self, key: T)
        ensures
            final(self)@ == (RpbPutReqView { key: Some(key.byte_view()), ..old(self)@.0 }, old(self)@.1),
    {
        self.0.key = Some(key.into_bytes());
    }

    /// The "n_val" property.
    pub fn get_n_val(&self) -> (r: Option<u32>)
        ensures
            r == self@.0.n_val,
    {
        self.0.n_val
    }

    /// Sets the "n_val" property.
    pub fn set_n_val(&mut self, n_val: u32)
        ensures
            final(self)@ == (RpbPutReqView { n_val: Some(n_val), ..old(self)@.0 }, old(self)@.1),
    {
        self.0.n_val = Some(n_val);
    }

    /// The "return_body" property.
    pub fn get_return_body(&self) -> (r: Option<bool>)
        ensures
            r == self@.0.return_body,
    {
        self.0.return_body
    }

    /// Sets the "return_body" property.
    pub fn set_return_body(&mut self, return_body: bool)
        ensures
            final(self)@ == (RpbPutReqView { return_body: Some(return_body), ..old(self)@.0 }, old(self)@.1),
    {
        self.0.return_body = Some(return_body);
    }

    /// The "return_head" property.
    pub fn get_return_head(&self) -> (r: Option<bool>)
        ensures
            r == self@.0.return_head,
    {
        self.0.return_head
    }

    /// Sets the "return_head" property.
    pub fn set_return_head(&mut self, return_head: bool)
        ensures
            final(self)@ == (RpbPutReqView { return_head: Some(return_head), ..old(self)@.0 }, old(self)@.1),
    {
        self.0.return_head = Some(return_head);
    }

    /// The "sloppy_quorum" property.
    pub fn get_sloppy_quorum(&self) -> (r: Option<bool>)
        ensures
            r == self@.0.sloppy_quorum,
    {
        self.0.sloppy_quorum
    }

    /// Sets the "sloppy_quorum" property.
    pub fn set_sloppy_quorum(&mut self, sloppy_quorum: bool)
        ensures
            final(self)@ == (RpbPutReqView { sloppy_quorum: Some(sloppy_quorum), ..old(self)@.0 }, old(self)@.1),
    {
        self.0.sloppy_quorum = Some(sloppy_quorum);
    }

    /// The "timeout" property.
    pub fn get_timeout(&self) -> (r: Option<u32>)
        ensures
            r == self@.0.timeout,
    {
        self.0.timeout
    }

    /// Sets the "timeout" property.
    pub fn set_timeout(&mut self, timeout: u32)
        ensures
            final(self)@ == (RpbPutReqView { timeout: Some(timeout), ..old(self)@.0 }, old(self)@.1),
    {
        self.0.timeout = Some(timeout);
    }

    /// The "vclock" property.
    pub fn get_vclock(&self) -> (r: Option<&[u8]>)
        ensures
            opt_slice_view(r) == self@.0.vclock,
    {
        match &self.0.vclock {
            Some(v) => Some(v.as_slice()),
            None => None,
        }
    }

    /// Sets the "vclock" property.
    pub fn set_vclock<T: IntoBytes>(&mut self, vclock: T)
        ensures
            final(self)@ == (RpbPutReqView { vclock: Some(vclock.byte_view()), ..old(self)@.0 }, old(self)@.1),
    {
        self.0.vclock = Some(vclock.into_bytes());
    }

    /// The "dw" property.
    pub fn get_dw(&self) -> (r: Option<u32>)
        ensures
            r == self@.0.dw,
    {
        self.0.dw
    }

    /// Sets the "dw" property.
    pub fn set_dw(&mut self, dw: u32)
        ensures
            final(self)@ == (RpbPutReqView { dw: Some(dw), ..old(self)@.0 }, old(self)@.1),
    {
        self.0.dw = Some(dw);
    }

    /// The "pw" property.
    pub fn get_pw(&self) -> (r: Option<u32>)
        ensures
            r == self@.0.pw,
    {
        self.0.pw
    }

    /// Sets the "pw" property.
    pub fn set_pw(&mut self, pw: u32)
        ensures
            final(self)@ == (RpbPutReqView { pw: Some(pw), ..old(self)@.0 }, old(self)@.1),
    {
        self.0.pw = Some(pw);
    }

    /// The "w" property.
    pub fn get_w(&self) -> (r: Option<u32>)
        ensures
            r == self@.0.w,
    {
        self.0.w
    }

    /// Sets the "w" property.
    pub fn set_w(&mut self, w: u32)
        ensures
            final(self)@ == (RpbPutReqView { w: Some(w), ..old(self)@.0 }, old(self)@.1),
    {
        self.0.w = Some(w);
    }

    /// The bytes of the request, with the content in it.
    pub fn serialize(self) -> (r: Result<Vec<u8>, RiakErr>)
        ensures
            r matches Ok(b) && b@ == rpb_put_req_bytes(RpbPutReqView { content: self@.1, ..self@.0 }),
    {
        let mut req = self.0;
        req.content = self.1.into_proto();
        Ok(req.encode_to_vec())
    }
}

/// A request to fetch an object.
#[derive(Clone, Debug)]
pub struct FetchObjectReq(RpbGetReq);

impl View for FetchObjectReq {
    type V = RpbGetReqView;

    closed spec fn view(&self) -> RpbGetReqView {
        self.0@
    }
}

impl FetchObjectReq {
    /// A request to fetch the object at `key` in `bucket`.
    pub fn new<T: IntoBytes>(bucket: T, key: T) -> (r: FetchObjectReq)
        ensures
            r@ == (RpbGetReqView { bucket: bucket.byte_view(), key: key.byte_view(), ..rpb_get_req_empty() }),
    {
        let mut req = RpbGetReq::empty();
        req.bucket = bucket.into_bytes();
        req.key = key.into_bytes();
        FetchObjectReq(req)
    }

    /// The "bucket" property.
    pub fn get_bucket(&self) -> (r: &[u8])
        ensures
            r@ == self@.bucket,
    {
        self.0.bucket.as_slice()
    }

    /// Sets the "bucket" property.
    pub fn set_bucket<T: IntoBytes>(&mut self, bucket: T)
        ensures
            final(self)@ == (RpbGetReqView { bucket: bucket.byte_view(), ..old(self)@ }),
    {
        self.0.bucket = bucket.into_bytes();
    }

    /// The "key" property.
    pub fn get_key(&self) -> (r: &[u8])
        ensures
            r@ == self@.key,
    {
        self.0.key.as_slice()
    }

    /// Sets the "key" property.
    pub fn set_key<T: IntoBytes>(&mut self, key: T)
        ensures
            final(self)@ == (RpbGetReqView { key: key.byte_view(), ..old(self)@ }),
    {
        self.0.key = key.into_bytes();
    }

    /// The "r" property.
    pub fn get_r(&self) -> (r: Option<u32>)
        ensures
            r == self@.r,
    {
        self.0.r
    }

    /// Sets the "r" property.
    pub fn set_r(&mut self, r: u32)
        ensures
            final(self)@ == (RpbGetReqView { r: Some(r), ..old(self)@ }),
    {
        self.0.r = Some(r);
    }

    /// The "pr" property.
    pub fn get_pr(&self) -> (r: Option<u32>)
        ensures
            r == self@.pr,
    {
        self.0.pr
    }

    /// Sets the "pr" property.
    pub fn set_pr(&mut self, pr: u32)
        ensures
            final(self)@ == (RpbGetReqView { pr: Some(pr), ..old(self)@ }),
    {
        self.0.pr = Some(pr);
    }

    /// The "basic_quorum" property.
    pub fn get_basic_quorum(&self) -> (r: Option<bool>)
        ensures
            r == self@.basic_quorum,
    {
        self.0.basic_quorum
    }

    /// Sets the "basic_quorum" property.
    pub fn set_basic_quorum(&mut self, basic_quorum: bool)
        ensures
            final(self)@ == (RpbGetReqView { basic_quorum: Some(basic_quorum), ..old(self)@ }),
    {
        self.0.basic_quorum = Some(basic_quorum);
    }

    /// The "notfound_ok" property.
    pub fn get_notfound_ok(&self) -> (r: Option<bool>)
        ensures
            r == self@.notfound_ok,
    {
        self.0.notfound_ok
    }

    /// Sets the "notfound_ok" property.
    pub fn set_notfound_ok(&mut self, notfound_ok: bool)
        ensures
            final(self)@ == (RpbGetReqView { notfound_ok: Some(notfound_ok), ..old(self)@ }),
    {
        self.0.notfound_ok = Some(notfound_ok);
    }

    /// The "if_modified" property.
    pub fn get_if_modified(&self) -> (r: Option<&[u8]>)
        ensures
            opt_slice_view(r) == self@.if_modified,
    {
        match &self.0.if_modified {
            Some(v) => Some(v.as_slice()),
            None => None,
        }
    }

    /// Sets the "if_modified" property.
    pub fn set_if_modified<T: IntoBytes>(&mut self, if_modified: T)
        ensures
            final(self)@ == (RpbGetReqView { if_modified: Some(if_modified.byte_view()), ..old(self)@ }),
    {
        self.0.if_modified = Some(if_modified.into_bytes());
    }

    /// The "head" property.
    pub fn get_head(&self) -> (r: Option<bool>)
        ensures
            r == self@.head,
    {
        self.0.head
    }

    /// Sets the "head" property.
    pub fn set_head(&mut self, head: bool)
        ensures
            final(self)@ == (RpbGetReqView { head: Some(head), ..old(self)@ }),
    {
        self.0.head = Some(head);
    }

    /// The "deleted_vclock" property.
    pub fn get_deleted_vclock(&self) -> (r: Option<bool>)
        ensures
            r == self@.deletedvclock,
    {
        self.0.deletedvclock
    }

    /// Sets the "deleted_vclock" property.
    pub fn set_deleted_vclock(&mut self, deleted_vclock: bool)
        ensures
            final(self)@ == (RpbGetReqView { deletedvclock: Some(deleted_vclock), ..old(self)@ }),
    {
        self.0.deletedvclock = Some(deleted_vclock);
    }

    /// The "timeout" property.
    pub fn get_timeout(&self) -> (r: Option<u32>)
        ensures
            r == self@.timeout,
    {
        self.0.timeout
    }

    /// Sets the "timeout" property.
    pub fn set_timeout(&mut self, timeout: u32)
        ensures
            final(self)@ == (RpbGetReqView { timeout: Some(timeout), ..old(self)@ }),
    {
        self.0.timeout = Some(timeout);
    }

    /// The "sloppy_quorum" property.
    pub fn get_sloppy_quorum(&self) -> (r: Option<bool>)
        ensures
            r == self@.sloppy_quorum,
    {
        self.0.sloppy_quorum
    }

    /// Sets the "sloppy_quorum" property.
    pub fn set_sloppy_quorum(&mut self, sloppy_quorum: bool)
        ensures
            final(self)@ == (RpbGetReqView { sloppy_quorum: Some(sloppy_quorum), ..old(self)@ }),
    {
        self.0.sloppy_quorum = Some(sloppy_quorum);
    }

    /// The "n_val" property.
    pub fn get_n_val(&self) -> (r: Option<u32>)
        ensures
            r == self@.n_val,
    {
        self.0.n_val
    }

    /// Sets the "n_val" property.
    pub fn set_n_val(&mut self, n_val: u32)
        ensures
            final(self)@ == (RpbGetReqView { n_val: Some(n_val), ..old(self)@ }),
    {
        self.0.n_val = Some(n_val);
    }

    /// The "bucket_type" property.
    pub fn get_bucket_type(&self) -> (r: Option<&[u8]>)
        ensures
            opt_slice_view(r) == self@.bucket_type,
    {
        match &self.0.bucket_type {
            Some(v) => Some(v.as_slice()),
            None => None,
        }
    }

    /// Sets the "bucket_type" property.
    pub fn set_bucket_type<T: IntoBytes>(&mut self, bucket_type: T)
        ensures
            final(self)@ == (RpbGetReqView { bucket_type: Some(bucket_type.byte_view()), ..old(self)@ }),
    {
        self.0.bucket_type = Some(bucket_type.into_bytes());
    }

    /// The bytes of the request.
    pub fn serialize(self) -> (r: Result<Vec<u8>, RiakErr>)
        ensures
            r matches Ok(b) && b@ == rpb_get_req_bytes(self@),
    {
        let req = self.0;
        Ok(req.encode_to_vec())
    }
}
/// An object as fetched: its siblings, its vector clock (empty where the
/// server sent none) and whether it was unchanged.
#[derive(Clone, Debug)]
pub struct FetchObjectResp {
    pub content: Vec<ObjectContent>,
    pub vclock: Vec<u8>,
    pub unchanged: Option<bool>,
}

/// The value of a `FetchObjectResp`.
pub struct FetchObjectRespView {
    pub content: Seq<RpbContentView>,
    pub vclock: Seq<u8>,
    pub unchanged: Option<bool>,
}

impl View for FetchObjectResp {
    type V = FetchObjectRespView;

    open spec fn view(&self) -> FetchObjectRespView {
        FetchObjectRespView {
            content: self.content@.map_values(|c: ObjectContent| c@),
            vclock: self.vclock@,
            unchanged: self.unchanged,
        }
    }
}

/// The fetched object that a reply of the wire gives.
pub open spec fn fetch_object_resp_from_proto(r: RpbGetRespView) -> FetchObjectRespView {
    FetchObjectRespView {
        content: r.content,
        vclock: match r.vclock {
            Some(v) => v,
            None => Seq::empty(),
        },
        unchanged: r.unchanged,
    }
}

impl FetchObjectResp {
    /// The fetched object of a reply of the wire.
    pub fn from_proto(resp: RpbGetResp) -> (r: FetchObjectResp)
        ensures
            r@ == fetch_object_resp_from_proto(resp@),
    {
        let ghost rv = resp@;
        let RpbGetResp { content, vclock, unchanged } = resp;
        let ghost cv = content@;
        let mut out: Vec<ObjectContent> = Vec::new();
        for c in it: content.into_iter()
            invariant
                out@.len() == it.index(),
                it.seq() == cv,
                forall|j: int| 0 <= j < it.index() ==> (#[trigger] out@[j])@ == cv[j]@,
        {
            out.push(ObjectContent::from_proto(c));
        }
        proof {
            assert(out@.map_values(|c: ObjectContent| c@) =~= rv.content);
        }
        let vclock = match vclock {
            Some(v) => v,
            None => Vec::new(),
        };
        FetchObjectResp { content: out, vclock, unchanged }
    }
}

/// The content of an object: its value and metadata.
#[derive(Clone, Debug)]
pub struct ObjectContent(RpbContent);

impl View for ObjectContent {
    type V = RpbContentView;

    closed spec fn view(&self) -> RpbContentView {
        self.0@
    }
}

impl ObjectContent {
    /// Content with the value `value` and no metadata.
    pub fn new<T: IntoBytes>(value: T) -> (r: ObjectContent)
        ensures
            r@ == (RpbContentView { value: value.byte_view(), ..rpb_content_empty() }),
    {
        let mut c = RpbContent::empty();
        c.value = value.into_bytes();
        ObjectContent(c)
    }

    /// The "value" property.
    pub fn get_value(&self) -> (r: &[u8])
        ensures
            r@ == self@.value,
    {
        self.0.value.as_slice()
    }

    /// Sets the "value" property.
    pub fn set_value<T: IntoBytes>(&mut self, value: T)
        ensures
            final(self)@ == (RpbContentView { value: value.byte_view(), ..old(self)@ }),
    {
        self.0.value = value.into_bytes();
    }

    /// The "content_type" property.
    pub fn get_content_type(&self) -> (r: Option<&[u8]>)
        ensures
            opt_slice_view(r) == self@.content_type,
    {
        match &self.0.content_type {
            Some(v) => Some(v.as_slice()),
            None => None,
        }
    }

    /// Sets the "content_type" property.
    pub fn set_content_type<T: IntoBytes>(&mut self, content_type: T)
        ensures
            final(self)@ == (RpbContentView { content_type: Some(content_type.byte_view()), ..old(self)@ }),
    {
        self.0.content_type = Some(content_type.into_bytes());
    }

    /// The "charset" property.
    pub fn get_charset(&self) -> (r: Option<&[u8]>)
        ensures
            opt_slice_view(r) == self@.charset,
    {
        match &self.0.charset {
            Some(v) => Some(v.as_slice()),
            None => None,
        }
    }

    /// Sets the "charset" property.
    pub fn set_charset<T: IntoBytes>(&mut self, charset: T)
        ensures
            final(self)@ == (RpbContentView { charset: Some(charset.byte_view()), ..old(self)@ }),
    {
        self.0.charset = Some(charset.into_bytes());
    }

    /// The "content_encoding" property.
    pub fn get_content_encoding(&self) -> (r: Option<&[u8]>)
        ensures
            opt_slice_view(r) == self@.content_encoding,
    {
        match &self.0.content_encoding {
            Some(v) => Some(v.as_slice()),
            None => None,
        }
    }

    /// Sets the "content_encoding" property.
    pub fn set_content_encoding<T: IntoBytes>(&mut self, content_encoding: T)
        ensures
            final(self)@ == (RpbContentView { content_encoding: Some(content_encoding.byte_view()), ..old(self)@ }),
    {
        self.0.content_encoding = Some(content_encoding.into_bytes());
    }

    /// The "vtag" property.
    pub fn get_vtag(&self) -> (r: Option<&[u8]>)
        ensures
            opt_slice_view(r) == self@.vtag,
    {
        match &self.0.vtag {
            Some(v) => Some(v.as_slice()),
            None => None,
        }
    }

    /// Sets the "vtag" property.
    pub fn set_vtag<T: IntoBytes>(&mut self, vtag: T)
        ensures
            final(self)@ == (RpbContentView { vtag: Some(vtag.byte_view()), ..old(self)@ }),
    {
        self.0.vtag = Some(vtag.into_bytes());
    }

    /// The "last_mod" property.
    pub fn get_last_mod(&self) -> (r: Option<u32>)
        ensures
            r == self@.last_mod,
    {
        self.0.last_mod
    }

    /// Sets the "last_mod" property.
    pub fn set_last_mod(&mut self, last_mod: u32)
        ensures
            final(self)@ == (RpbContentView { last_mod: Some(last_mod), ..old(self)@ }),
    {
        self.0.last_mod = Some(last_mod);
    }

    /// The "last_mod_usecs" property.
    pub fn get_last_mod_usecs(&self) -> (r: Option<u32>)
        ensures
            r == self@.last_mod_usecs,
    {
        self.0.last_mod_usecs
    }

    /// Sets the "last_mod_usecs" property.
    pub fn set_last_mod_usecs(&mut self, last_mod_usecs: u32)
        ensures
            final(self)@ == (RpbContentView { last_mod_usecs: Some(last_mod_usecs), ..old(self)@ }),
    {
        self.0.last_mod_usecs = Some(last_mod_usecs);
    }

    /// The "deleted" property.
    pub fn get_deleted(&self) -> (r: Option<bool>)
        ensures
            r == self@.deleted,
    {
        self.0.deleted
    }

    /// Sets the "deleted" property.
    pub fn set_deleted(&mut self, deleted: bool)
        ensures
            final(self)@ == (RpbContentView { deleted: Some(deleted), ..old(self)@ }),
    {
        self.0.deleted = Some(deleted);
    }

    /// The "indexes" property: `None` where there is no index entry.
    pub fn get_indexes(&self) -> (r: Option<Indexes>)
        ensures
            match r {
                Some(x) => self@.indexes.len() > 0 && x@ == indexes_from_proto(self@.indexes),
                None => self@.indexes.len() == 0,
            },
    {
        Indexes::from_proto(self.0.indexes.as_slice())
    }

    /// Sets the "indexes" property: one pair per entry, in order.
    pub fn set_indexes(&mut self, indexes: Indexes)
        ensures
            final(self)@ == (RpbContentView { indexes: indexes_to_proto(indexes@), ..old(self)@ }),
    {
        self.0.indexes = indexes.into_proto();
    }

    /// The content of a message of the wire.
    pub fn from_proto(content: RpbContent) -> (r: ObjectContent)
        ensures
            r@ == content@,
    {
        ObjectContent(content)
    }

    /// The message of the wire for this content.
    pub fn into_proto(self) -> (r: RpbContent)
        ensures
            r@ == self@,
    {
        self.0
    }
}
} // verus!
