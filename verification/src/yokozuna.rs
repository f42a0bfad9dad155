//! Riak search: indexes and queries.
//!
//! For more information: https://docs.basho.com/riak/kv/latest/developing/usage/search/
use crate::bytes::{IntoBytes, copy_bytes, opt_slice_view};
use crate::errors::RiakErr;
use crate::proto::kv::RpbPairView;
use crate::proto::yz::{
    RpbSearchDocView, RpbSearchQueryReq, RpbSearchQueryReqView, RpbSearchQueryResp,
    RpbSearchQueryRespView, RpbYokozunaIndex, RpbYokozunaIndexPutReq,
    RpbYokozunaIndexPutReqView, RpbYokozunaIndexView, rpb_search_query_req_bytes,
    rpb_search_query_req_empty, rpb_yokozuna_index_empty, rpb_yokozuna_index_put_req_bytes,
};
use crate::wire::{bytes_seq_view, opt_bytes_view};
use vstd::prelude::*;

verus! {

/// A search index.
#[derive(Clone, Debug)]
pub struct YokozunaIndex(RpbYokozunaIndex);

impl View for YokozunaIndex {
    type V = RpbYokozunaIndexView;

    closed spec fn view(&self) -> RpbYokozunaIndexView {
        self.0@
    }
}

impl YokozunaIndex {
    /// An index named `name`, with no schema and no `n_val` set.
    pub fn new<T: IntoBytes>(name: T) -> (r: YokozunaIndex)
        ensures
            r@ == (RpbYokozunaIndexView { name: name.byte_view(), ..rpb_yokozuna_index_empty() }),
    {
        let mut idx = RpbYokozunaIndex::empty();
        idx.name = name.into_bytes();
        YokozunaIndex(idx)
    }

    /// The "name" property.
    pub fn get_name(&self) -> (r: &[u8])
        ensures
            r@ == self@.name,
    {
        self.0.name.as_slice()
    }

    /// Sets the "name" property.
    pub fn set_name<T: IntoBytes>(&mut self, name: T)
        ensures
            final(self)@ == (RpbYokozunaIndexView { name: name.byte_view(), ..old(self)@ }),
    {
        self.0.name = name.into_bytes();
    }

    /// The "schema" property.
    pub fn get_schema(&self) -> (r: Option<&[u8]>)
        ensures
            opt_slice_view(r) == self@.schema,
    {
        match &self.0.schema {
            Some(v) => Some(v.as_slice()),
            None => None,
        }
    }

    /// Sets the "schema" property.
    pub fn set_schema<T: IntoBytes>(&mut self, schema: T)
        ensures
            final(self)@ == (RpbYokozunaIndexView { schema: Some(schema.byte_view()), ..old(self)@ }),
    {
        self.0.schema = Some(schema.into_bytes());
    }

    /// The "n_val" property.
    pub fn get_n_val(&self) -> (r: Option<u32>)
        ensures
            r == self@.n_val,
    {
        self.0.n_val
    }

    /// Sets the "n_val" property.
    pub fn set_n_val(&mut self, n_val: u32)
        ensures
            final(self)@ == (RpbYokozunaIndexView { n_val: Some(n_val), ..old(self)@ }),
    {
        self.0.n_val = Some(n_val);
    }

    /// The bytes of the request.
    pub fn serialize(self) -> (r: Result<Vec<u8>, RiakErr>)
        ensures
            r matches Ok(b) && b@ == rpb_yokozuna_index_put_req_bytes(RpbYokozunaIndexPutReqView { index: self@, timeout: None }),
    {
        let req = RpbYokozunaIndexPutReq { index: self.0, timeout: None };
        Ok(req.encode_to_vec())
    }

    /// The index of a message of the wire.
    pub fn from_proto(index: RpbYokozunaIndex) -> (r: YokozunaIndex)
        ensures
            r@ == index@,
    {
        YokozunaIndex(index)
    }
}
/// A query that can be run on a search index.
#[derive(Clone, Debug)]
pub struct SearchQuery(RpbSearchQueryReq);

impl View for SearchQuery {
    type V = RpbSearchQueryReqView;

    closed spec fn view(&self) -> RpbSearchQueryReqView {
        self.0@
    }
}

impl SearchQuery {
    /// The query `q` on the index `index`.
    pub fn new<T: IntoBytes>(q: T, index: T) -> (r: SearchQuery)
        ensures
            r@ == (RpbSearchQueryReqView {
                q: q.byte_view(),
                index: index.byte_view(),
                ..rpb_search_query_req_empty()
            }),
    {
        let mut req = RpbSearchQueryReq::empty();
        req.q = q.into_bytes();
        req.index = index.into_bytes();
        SearchQuery(req)
    }

    /// The "q" property.
    pub fn get_q(&self) -> (r: &[u8])
        ensures
            r@ == self@.q,
    {
        self.0.q.as_slice()
    }

    /// Sets the "q" property.
    pub fn set_q<T: IntoBytes>(&mut self, q: T)
        ensures
            final(self)@ == (RpbSearchQueryReqView { q: q.byte_view(), ..old(self)@ }),
    {
        self.0.q = q.into_bytes();
    }

    /// The "index" property.
    pub fn get_index(&self) -> (r: &[u8])
        ensures
            r@ == self@.index,
    {
        self.0.index.as_slice()
    }

    /// Sets the "index" property.
    pub fn set_index<T: IntoBytes>(&mut self, index: T)
        ensures
            final(self)@ == (RpbSearchQueryReqView { index: index.byte_view(), ..old(self)@ }),
    {
        self.0.index = index.into_bytes();
    }

    /// The "rows" property.
    pub fn get_rows(&self) -> (r: Option<u32>)
        ensures
            r == self@.rows,
    {
        self.0.rows
    }

    /// Sets the "rows" property.
    pub fn set_rows(&mut self, rows: u32)
        ensures
            final(self)@ == (RpbSearchQueryReqView { rows: Some(rows), ..old(self)@ }),
    {
        self.0.rows = Some(rows);
    }

    /// The "start" property.
    pub fn get_start(&self) -> (r: Option<u32>)
        ensures
            r == self@.start,
    {
        self.0.start
    }

    /// Sets the "start" property.
    pub fn set_start(&mut self, start: u32)
        ensures
            final(self)@ == (RpbSearchQueryReqView { start: Some(start), ..old(self)@ }),
    {
        self.0.start = Some(start);
    }

    /// The "sort" property.
    pub fn get_sort(&self) -> (r: Option<&[u8]>)
        ensures
            opt_slice_view(r) == self@.sort,
    {
        match &self.0.sort {
            Some(v) => Some(v.as_slice()),
            None => None,
        }
    }

    /// Sets the "sort" property.
    pub fn set_sort<T: IntoBytes>(&mut self, sort: T)
        ensures
            final(self)@ == (RpbSearchQueryReqView { sort: Some(sort.byte_view()), ..old(self)@ }),
    {
        self.0.sort = Some(sort.into_bytes());
    }

    /// The "filter" property.
    pub fn get_filter(&self) -> (r: Option<&[u8]>)
        ensures
            opt_slice_view(r) == self@.filter,
    {
        match &self.0.filter {
            Some(v) => Some(v.as_slice()),
            None => None,
        }
    }

    /// Sets the "filter" property.
    pub fn set_filter<T: IntoBytes>(&mut self, filter: T)
        ensures
            final(self)@ == (RpbSearchQueryReqView { filter: Some(filter.byte_view()), ..old(self)@ }),
    {
        self.0.filter = Some(filter.into_bytes());
    }

    /// The "df" property.
    pub fn get_df(&self) -> (r: Option<&[u8]>)
        ensures
            opt_slice_view(r) == self@.df,
    {
        match &self.0.df {
            Some(v) => Some(v.as_slice()),
            None => None,
        }
    }

    /// Sets the "df" property.
    pub fn set_df<T: IntoBytes>(&mut self, df: T)
        ensures
            final(self)@ == (RpbSearchQueryReqView { df: Some(df.byte_view()), ..old(self)@ }),
    {
        self.0.df = Some(df.into_bytes());
    }

    /// The "op" property.
    pub fn get_op(&self) -> (r: Option<&[u8]>)
        ensures
            opt_slice_view(r) == self@.op,
    {
        match &self.0.op {
            Some(v) => Some(v.as_slice()),
            None => None,
        }
    }

    /// Sets the "op" property.
    pub fn set_op<T: IntoBytes>(&mut self, op: T)
        ensures
            final(self)@ == (RpbSearchQueryReqView { op: Some(op.byte_view()), ..old(self)@ }),
    {
        self.0.op = Some(op.into_bytes());
    }

    /// The bytes of the request.
    pub fn serialize(self) -> (r: Result<Vec<u8>, RiakErr>)
        ensures
            r matches Ok(b) && b@ == rpb_search_query_req_bytes(self@),
    {
        let req = self.0;
        Ok(req.encode_to_vec())
    }

    /// The "fl" property: the fields to return.
    pub fn get_fl(&self) -> (r: Option<&[Vec<u8>]>)
        ensures
            r matches Some(s) && bytes_seq_view(s@) == self@.fl,
    {
        Some(self.0.fl.as_slice())
    }

    /// Sets the "fl" property.
    pub fn set_fl(&mut self, fl: Vec<Vec<u8>>)
        ensures
            final(self)@ == (RpbSearchQueryReqView { fl: bytes_seq_view(fl@), ..old(self)@ }),
    {
        self.0.fl = fl;
    }

    /// The "presort" property.
    pub fn get_presort(&self) -> (r: Option<&[u8]>)
        ensures
            opt_slice_view(r) == self@.presort,
    {
        match &self.0.presort {
            Some(v) => Some(v.as_slice()),
            None => None,
        }
    }

    /// Sets the "presort" property.
    pub fn set_presort<T: IntoBytes>(&mut self, presort: T)
        ensures
            final(self)@ == (RpbSearchQueryReqView { presort: Some(presort.byte_view()), ..old(self)@ }),
    {
        self.0.presort = Some(presort.into_bytes());
    }
}
/// The fields of the documents that a search found, one pair per field, in
/// the order of the documents and of their fields.
pub open spec fn search_pairs_of(docs: Seq<RpbSearchDocView>) -> Seq<(Seq<u8>, Option<Seq<u8>>)>
    decreases docs.len(),
{
    if docs.len() == 0 {
        Seq::empty()
    } else {
        search_pairs_of(docs.drop_last()) + docs.last().fields.map_values(
            |p: RpbPairView| (p.key, p.value),
        )
    }
}

/// The pairs of one document are its fields, in order, each as its key and
/// value; and the pairs of documents one after the other are the pairs of
/// each, one after the other. So every field of every document comes out
/// once, in the order of the reply.
pub proof fn lemma_search_pairs(d: RpbSearchDocView, a: Seq<RpbSearchDocView>, b: Seq<RpbSearchDocView>)
    ensures
        search_pairs_of(seq![d]) == d.fields.map_values(|p: RpbPairView| (p.key, p.value)),
        search_pairs_of(a + b) == search_pairs_of(a) + search_pairs_of(b),
    decreases b.len(),
{
    assert(seq![d].drop_last() =~= Seq::<RpbSearchDocView>::empty());
    assert(search_pairs_of(Seq::<RpbSearchDocView>::empty()) + d.fields.map_values(
        |p: RpbPairView| (p.key, p.value),
    ) =~= d.fields.map_values(|p: RpbPairView| (p.key, p.value)));
    if b.len() == 0 {
        assert(a + b =~= a);
        assert(search_pairs_of(a) + search_pairs_of(b) =~= search_pairs_of(a));
    } else {
        lemma_search_pairs(d, a, b.drop_last());
        assert((a + b).drop_last() =~= a + b.drop_last());
        assert((a + b).last() == b.last());
        let f = b.last().fields.map_values(|p: RpbPairView| (p.key, p.value));
        assert(search_pairs_of(a) + search_pairs_of(b.drop_last()) + f =~= search_pairs_of(a) + (
        search_pairs_of(b.drop_last()) + f));
    }
}

/// The value of a search pair.
pub open spec fn search_pair_view(p: (Vec<u8>, Option<Vec<u8>>)) -> (Seq<u8>, Option<Seq<u8>>) {
    (p.0@, opt_bytes_view(p.1))
}

/// The fields of the documents of a search reply, one pair per field.
pub fn search_pairs(resp: &RpbSearchQueryResp) -> (r: Vec<(Vec<u8>, Option<Vec<u8>>)>)
    ensures
        r@.map_values(|p: (Vec<u8>, Option<Vec<u8>>)| search_pair_view(p)) == search_pairs_of(
            resp@.docs,
        ),
{
    let mut out: Vec<(Vec<u8>, Option<Vec<u8>>)> = Vec::new();
    let ghost docs = resp@.docs;
    let mut i: usize = 0;
    while i < resp.docs.len()
        invariant
            i <= resp.docs@.len(),
            docs == resp@.docs,
            docs.len() == resp.docs@.len(),
            out@.map_values(|p: (Vec<u8>, Option<Vec<u8>>)| search_pair_view(p)) == search_pairs_of(
                docs.take(i as int),
            ),
        decreases resp.docs@.len() - i,
    {
        let doc = &resp.docs[i];
        let ghost before = out@.map_values(|p: (Vec<u8>, Option<Vec<u8>>)| search_pair_view(p));
        let ghost fields = doc@.fields;
        proof {
            assert(docs[i as int] == doc@);
            assert(docs.take(i + 1).drop_last() =~= docs.take(i as int));
        }
        let mut k: usize = 0;
        while k < doc.fields.len()
            invariant
                k <= doc.fields@.len(),
                fields == doc@.fields,
                fields.len() == doc.fields@.len(),
                out@.map_values(|p: (Vec<u8>, Option<Vec<u8>>)| search_pair_view(p)) == before
                    + fields.take(k as int).map_values(|p: RpbPairView| (p.key, p.value)),
            decreases doc.fields@.len() - k,
        {
            let f = &doc.fields[k];
            let value: Option<Vec<u8>> = match &f.value {
                Some(v) => Some(copy_bytes(v.as_slice())),
                None => None,
            };
            let pair = (copy_bytes(f.key.as_slice()), value);
            let ghost prev = out@.map_values(|p: (Vec<u8>, Option<Vec<u8>>)| search_pair_view(p));
            out.push(pair);
            proof {
                assert(fields[k as int] == f@);
                assert(out@.map_values(|p: (Vec<u8>, Option<Vec<u8>>)| search_pair_view(p)) =~= prev.push(
                    search_pair_view(pair),
                ));
                assert(fields.take(k + 1).map_values(|p: RpbPairView| (p.key, p.value)) =~= fields.take(
                    k as int,
                ).map_values(|p: RpbPairView| (p.key, p.value)).push((f@.key, f@.value)));
            }
            k = k + 1;
        }
        proof {
            assert(fields.take(k as int) =~= fields);
        }
        i = i + 1;
    }
    proof {
        assert(docs.take(i as int) =~= docs);
    }
    out
}

} // verus!
