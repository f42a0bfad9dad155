//! Messages of the search API.
use crate::wire::{
    Field, FieldData, RawData, RawField, WireMessage, bytes_field, bytes_piece, bytes_seq_view,
    decode_error, field_bytes, field_parse, fixed32_field, lemma_concat_assoc,
    lemma_field_parse_len, lemma_field_roundtrip, opt_bytes_piece, opt_bytes_view,
    opt_fixed32_piece, opt_u32_code, opt_varint_piece, put_bytes_field, put_message, put_opt_bytes,
    put_opt_u32, put_rep_bytes, read_field, rep_bytes_piece, u32_from_code, u32_of_code,
    varint_field,
};
use crate::proto::kv::{
    RpbPair, RpbPairView, lemma_rpb_pair_reads_back, rpb_pair_bytes, rpb_pair_empty,
    rpb_pair_merge,
};
use prost::DecodeError;
use vstd::prelude::*;

verus! {

/// A document found by a search.
#[derive(Clone, Debug)]
pub struct RpbSearchDoc {
    pub fields: Vec<RpbPair>,
}

/// The value of a `RpbSearchDoc`.
pub struct RpbSearchDocView {
    pub fields: Seq<RpbPairView>,
}

impl View for RpbSearchDoc {
    type V = RpbSearchDocView;

    open spec fn view(&self) -> RpbSearchDocView {
        RpbSearchDocView {
            fields: self.fields@.map_values(|m: RpbPair| m@),
        }
    }
}

/// A `RpbSearchDoc` with no field set.
pub open spec fn rpb_search_doc_empty() -> RpbSearchDocView {
    RpbSearchDocView {
        fields: Seq::empty(),
    }
}

/// The bytes of a `RpbSearchDoc`: its fields in the order of their tags.
pub open spec fn rpb_search_doc_bytes(m: RpbSearchDocView) -> Seq<u8> {
    rep_bytes_piece(1, m.fields.map_values(|s: RpbPairView| rpb_pair_bytes(s)))
}

/// What one field read from the wire does to a `RpbSearchDoc`: `None` where
/// the field has a known tag and a payload of another wire type, or a
/// nested message that does not read. Fields of unknown tags are skipped.
/// `ctx` is what is left of the nesting allowance of 100 messages: a
/// nested message, or an unknown field, needs some of it.
pub open spec fn rpb_search_doc_apply(m: RpbSearchDocView, f: RawField, ctx: nat) -> Option<RpbSearchDocView>
    decreases ctx, 0nat,
{
    if f.tag == 1 {
        match f.data {
            RawData::Bytes(b) => if ctx == 0 {
                None
            } else {
                match rpb_pair_merge(rpb_pair_empty(), b, (ctx - 1) as nat) {
                    Some(s) => Some(RpbSearchDocView { fields: m.fields.push(s), ..m }),
                    None => None,
                }
            },
            _ => None,
        }
    } else if ctx == 0 {
        None
    } else {
        Some(m)
    }
}

/// Reads the fields of `s` into `m`, one after the other, as `prost`
/// merges a `RpbSearchDoc`.
pub open spec fn rpb_search_doc_merge(m: RpbSearchDocView, s: Seq<u8>, ctx: nat) -> Option<RpbSearchDocView>
    decreases ctx, s.len(),
{
    if s.len() == 0 {
        Some(m)
    } else {
        match field_parse(s, ctx) {
            Some((f, n)) => if 1 <= n <= s.len() {
                match rpb_search_doc_apply(m, f, ctx) {
                    Some(m2) => rpb_search_doc_merge(m2, s.skip(n as int), ctx),
                    None => None,
                }
            } else {
                None
            },
            None => None,
        }
    }
}

/// A `RpbSearchDoc` read from `s`, or `None` where `s` is malformed: its
/// fields merged into an empty message with the full allowance of 100.
pub open spec fn rpb_search_doc_decode(s: Seq<u8>) -> Option<RpbSearchDocView> {
    rpb_search_doc_merge(rpb_search_doc_empty(), s, 100)
}

impl RpbSearchDoc {
    /// A `RpbSearchDoc` with no field set.
    pub fn empty() -> (r: RpbSearchDoc)
        ensures
            r@ == rpb_search_doc_empty(),
    {
        let r = RpbSearchDoc {
            fields: Vec::new(),
        };
        proof {
            assert(r.fields@.map_values(|m: RpbPair| m@) =~= Seq::<RpbPairView>::empty());
        }
        r
    }

    /// Reads the fields of `buf` into this message, as `prost` merges a
    /// `RpbSearchDoc`.
    pub fn merge_from(&mut self, buf: &[u8], ctx: u32) -> (res: Result<(), DecodeError>)
        ensures
            match res {
                Ok(()) => rpb_search_doc_merge(old(self)@, buf@, ctx as nat) == Some(final(self)@),
                Err(_) => rpb_search_doc_merge(old(self)@, buf@, ctx as nat) is None,
            },
        decreases ctx, buf@.len(),
    {
        let mut rest = buf;
        while rest.len() > 0
            invariant
                rpb_search_doc_merge(old(self)@, buf@, ctx as nat) == rpb_search_doc_merge(self@, rest@, ctx as nat),
                rest@.len() <= buf@.len(),
            decreases rest@.len(),
        {
            let (f, r2) = match read_field(rest, ctx) {
                Ok(p) => p,
                Err(e) => return Err(e),
            };
            proof {
                lemma_field_parse_len(rest@, ctx as nat);
            }
            match self.apply_field(f, ctx) {
                Ok(()) => {},
                Err(e) => return Err(e),
            }
            rest = r2;
        }
        Ok(())
    }

    /// Reads a `RpbSearchDoc` from `buf`, with the full allowance of 100.
    pub fn decode(buf: &[u8]) -> (res: Result<RpbSearchDoc, DecodeError>)
        ensures
            match res {
                Ok(m) => rpb_search_doc_decode(buf@) == Some(m@),
                Err(_) => rpb_search_doc_decode(buf@) is None,
            },
    {
        let mut m = RpbSearchDoc::empty();
        match m.merge_from(buf, 100) {
            Ok(()) => Ok(m),
            Err(e) => Err(e),
        }
    }

    fn apply_field(&mut self, f: Field, ctx: u32) -> (res: Result<(), DecodeError>)
        ensures
            match res {
                Ok(()) => rpb_search_doc_apply(old(self)@, f@, ctx as nat) == Some(final(self)@),
                Err(_) => rpb_search_doc_apply(old(self)@, f@, ctx as nat) is None,
            },
        decreases ctx, 0nat,
    {
        let Field { tag, data } = f;
        if tag == 1 {
            match data {
                FieldData::Bytes(b) => {
                    if ctx == 0 {
                        return Err(decode_error("recursion limit reached"));
                    }
                    let mut s = RpbPair::empty();
                    match s.merge_from(b.as_slice(), ctx - 1) {
                        Ok(()) => {
                            let ghost prev = self.fields@.map_values(|m: RpbPair| m@);
                            let ghost sv = s@;
                            self.fields.push(s);
                            proof {
                                assert(self.fields@.map_values(|m: RpbPair| m@) =~= prev.push(sv));
                            }
                            Ok(())
                        },
                        Err(e) => Err(e),
                    }
                },
                _ => Err(decode_error("invalid wire type")),
            }
        } else if ctx == 0 {
            Err(decode_error("recursion limit reached"))
        } else {
            Ok(())
        }
    }

}

/// A search query.
#[derive(Clone, Debug)]
pub struct RpbSearchQueryReq {
    pub q: Vec<u8>,
    pub index: Vec<u8>,
    pub rows: Option<u32>,
    pub start: Option<u32>,
    pub sort: Option<Vec<u8>>,
    pub filter: Option<Vec<u8>>,
    pub df: Option<Vec<u8>>,
    pub op: Option<Vec<u8>>,
    pub fl: Vec<Vec<u8>>,
    pub presort: Option<Vec<u8>>,
}

/// The value of a `RpbSearchQueryReq`.
pub struct RpbSearchQueryReqView {
    pub q: Seq<u8>,
    pub index: Seq<u8>,
    pub rows: Option<u32>,
    pub start: Option<u32>,
    pub sort: Option<Seq<u8>>,
    pub filter: Option<Seq<u8>>,
    pub df: Option<Seq<u8>>,
    pub op: Option<Seq<u8>>,
    pub fl: Seq<Seq<u8>>,
    pub presort: Option<Seq<u8>>,
}

impl View for RpbSearchQueryReq {
    type V = RpbSearchQueryReqView;

    open spec fn view(&self) -> RpbSearchQueryReqView {
        RpbSearchQueryReqView {
            q: self.q@,
            index: self.index@,
            rows: self.rows,
            start: self.start,
            sort: opt_bytes_view(self.sort),
            filter: opt_bytes_view(self.filter),
            df: opt_bytes_view(self.df),
            op: opt_bytes_view(self.op),
            fl: bytes_seq_view(self.fl@),
            presort: opt_bytes_view(self.presort),
        }
    }
}

/// A `RpbSearchQueryReq` with no field set.
pub open spec fn rpb_search_query_req_empty() -> RpbSearchQueryReqView {
    RpbSearchQueryReqView {
        q: Seq::empty(),
        index: Seq::empty(),
        rows: None,
        start: None,
        sort: None,
        filter: None,
        df: None,
        op: None,
        fl: Seq::empty(),
        presort: None,
    }
}

/// The bytes of a `RpbSearchQueryReq`: its fields in the order of their tags.
pub open spec fn rpb_search_query_req_bytes(m: RpbSearchQueryReqView) -> Seq<u8> {
    bytes_piece(1, m.q)
        + bytes_piece(2, m.index)
        + opt_varint_piece(3, opt_u32_code(m.rows))
        + opt_varint_piece(4, opt_u32_code(m.start))
        + opt_bytes_piece(5, m.sort)
        + opt_bytes_piece(6, m.filter)
        + opt_bytes_piece(7, m.df)
        + opt_bytes_piece(8, m.op)
        + rep_bytes_piece(9, m.fl)
        + opt_bytes_piece(10, m.presort)
}

/// What one field read from the wire does to a `RpbSearchQueryReq`: `None` where
/// the field has a known tag and a payload of another wire type, or a
/// nested message that does not read. Fields of unknown tags are skipped.
/// `ctx` is what is left of the nesting allowance of 100 messages: a
/// nested message, or an unknown field, needs some of it.
pub open spec fn rpb_search_query_req_apply(m: RpbSearchQueryReqView, f: RawField, ctx: nat) -> Option<RpbSearchQueryReqView>
    decreases ctx, 0nat,
{
    if f.tag == 1 {
        match f.data {
            RawData::Bytes(b) => Some(RpbSearchQueryReqView { q: b, ..m }),
            _ => None,
        }
    } else if f.tag == 2 {
        match f.data {
            RawData::Bytes(b) => Some(RpbSearchQueryReqView { index: b, ..m }),
            _ => None,
        }
    } else if f.tag == 3 {
        match f.data {
            RawData::Varint(v) => Some(RpbSearchQueryReqView { rows: Some(u32_of_code(v)), ..m }),
            _ => None,
        }
    } else if f.tag == 4 {
        match f.data {
            RawData::Varint(v) => Some(RpbSearchQueryReqView { start: Some(u32_of_code(v)), ..m }),
            _ => None,
        }
    } else if f.tag == 5 {
        match f.data {
            RawData::Bytes(b) => Some(RpbSearchQueryReqView { sort: Some(b), ..m }),
            _ => None,
        }
    } else if f.tag == 6 {
        match f.data {
            RawData::Bytes(b) => Some(RpbSearchQueryReqView { filter: Some(b), ..m }),
            _ => None,
        }
    } else if f.tag == 7 {
        match f.data {
            RawData::Bytes(b) => Some(RpbSearchQueryReqView { df: Some(b), ..m }),
            _ => None,
        }
    } else if f.tag == 8 {
        match f.data {
            RawData::Bytes(b) => Some(RpbSearchQueryReqView { op: Some(b), ..m }),
            _ => None,
        }
    } else if f.tag == 9 {
        match f.data {
            RawData::Bytes(b) => Some(RpbSearchQueryReqView { fl: m.fl.push(b), ..m }),
            _ => None,
        }
    } else if f.tag == 10 {
        match f.data {
            RawData::Bytes(b) => Some(RpbSearchQueryReqView { presort: Some(b), ..m }),
            _ => None,
        }
    } else if ctx == 0 {
        None
    } else {
        Some(m)
    }
}

/// Reads the fields of `s` into `m`, one after the other, as `prost`
/// merges a `RpbSearchQueryReq`.
pub open spec fn rpb_search_query_req_merge(m: RpbSearchQueryReqView, s: Seq<u8>, ctx: nat) -> Option<RpbSearchQueryReqView>
    decreases ctx, s.len(),
{
    if s.len() == 0 {
        Some(m)
    } else {
        match field_parse(s, ctx) {
            Some((f, n)) => if 1 <= n <= s.len() {
                match rpb_search_query_req_apply(m, f, ctx) {
                    Some(m2) => rpb_search_query_req_merge(m2, s.skip(n as int), ctx),
                    None => None,
                }
            } else {
                None
            },
            None => None,
        }
    }
}

/// A `RpbSearchQueryReq` read from `s`, or `None` where `s` is malformed: its
/// fields merged into an empty message with the full allowance of 100.
pub open spec fn rpb_search_query_req_decode(s: Seq<u8>) -> Option<RpbSearchQueryReqView> {
    rpb_search_query_req_merge(rpb_search_query_req_empty(), s, 100)
}

impl RpbSearchQueryReq {
    /// A `RpbSearchQueryReq` with no field set.
    pub fn empty() -> (r: RpbSearchQueryReq)
        ensures
            r@ == rpb_search_query_req_empty(),
    {
        let r = RpbSearchQueryReq {
            q: Vec::new(),
            index: Vec::new(),
            rows: None,
            start: None,
            sort: None,
            filter: None,
            df: None,
            op: None,
            fl: Vec::new(),
            presort: None,
        };
        proof {
            assert(bytes_seq_view(r.fl@) =~= Seq::<Seq<u8>>::empty());
        }
        r
    }

    /// The bytes of this message, in a new buffer.
    pub fn encode_to_vec(&self) -> (r: Vec<u8>)
        ensures
            r@ == rpb_search_query_req_bytes(self@),
    {
        let mut buf: Vec<u8> = Vec::new();
        self.encode(&mut buf);
        proof {
            assert(buf@ =~= rpb_search_query_req_bytes(self@));
        }
        buf
    }

}

impl WireMessage for RpbSearchQueryReq {
    open spec fn wire_bytes(&self) -> Seq<u8> {
        rpb_search_query_req_bytes(self@)
    }

    fn encode(&self, buf: &mut Vec<u8>) {
        let ghost start = buf@;
        put_bytes_field(buf, 1, self.q.as_slice());
        let ghost mut acc = bytes_piece(1, self@.q);
        proof {
            assert(buf@ == start + acc);
        }
        put_bytes_field(buf, 2, self.index.as_slice());
        proof {
            lemma_concat_assoc(start, acc, bytes_piece(2, self@.index));
            acc = acc + bytes_piece(2, self@.index);
        }
        put_opt_u32(buf, 3, self.rows);
        proof {
            lemma_concat_assoc(start, acc, opt_varint_piece(3, opt_u32_code(self@.rows)));
            acc = acc + opt_varint_piece(3, opt_u32_code(self@.rows));
        }
        put_opt_u32(buf, 4, self.start);
        proof {
            lemma_concat_assoc(start, acc, opt_varint_piece(4, opt_u32_code(self@.start)));
            acc = acc + opt_varint_piece(4, opt_u32_code(self@.start));
        }
        put_opt_bytes(buf, 5, &self.sort);
        proof {
            lemma_concat_assoc(start, acc, opt_bytes_piece(5, self@.sort));
            acc = acc + opt_bytes_piece(5, self@.sort);
        }
        put_opt_bytes(buf, 6, &self.filter);
        proof {
            lemma_concat_assoc(start, acc, opt_bytes_piece(6, self@.filter));
            acc = acc + opt_bytes_piece(6, self@.filter);
        }
        put_opt_bytes(buf, 7, &self.df);
        proof {
            lemma_concat_assoc(start, acc, opt_bytes_piece(7, self@.df));
            acc = acc + opt_bytes_piece(7, self@.df);
        }
        put_opt_bytes(buf, 8, &self.op);
        proof {
            lemma_concat_assoc(start, acc, opt_bytes_piece(8, self@.op));
            acc = acc + opt_bytes_piece(8, self@.op);
        }
        put_rep_bytes(buf, 9, &self.fl);
        proof {
            lemma_concat_assoc(start, acc, rep_bytes_piece(9, self@.fl));
            acc = acc + rep_bytes_piece(9, self@.fl);
        }
        put_opt_bytes(buf, 10, &self.presort);
        proof {
            lemma_concat_assoc(start, acc, opt_bytes_piece(10, self@.presort));
            acc = acc + opt_bytes_piece(10, self@.presort);
        }
        proof {
            assert(acc == rpb_search_query_req_bytes(self@));
        }
    }
}

/// The answer to a search query. The maximum score is held as the bits of a 32-bit float.
#[derive(Clone, Debug)]
pub struct RpbSearchQueryResp {
    pub docs: Vec<RpbSearchDoc>,
    pub max_score: Option<u32>,
    pub num_found: Option<u32>,
}

/// The value of a `RpbSearchQueryResp`.
pub struct RpbSearchQueryRespView {
    pub docs: Seq<RpbSearchDocView>,
    pub max_score: Option<u32>,
    pub num_found: Option<u32>,
}

impl View for RpbSearchQueryResp {
    type V = RpbSearchQueryRespView;

    open spec fn view(&self) -> RpbSearchQueryRespView {
        RpbSearchQueryRespView {
            docs: self.docs@.map_values(|m: RpbSearchDoc| m@),
            max_score: self.max_score,
            num_found: self.num_found,
        }
    }
}

/// A `RpbSearchQueryResp` with no field set.
pub open spec fn rpb_search_query_resp_empty() -> RpbSearchQueryRespView {
    RpbSearchQueryRespView {
        docs: Seq::empty(),
        max_score: None,
        num_found: None,
    }
}

/// The bytes of a `RpbSearchQueryResp`: its fields in the order of their tags.
pub open spec fn rpb_search_query_resp_bytes(m: RpbSearchQueryRespView) -> Seq<u8> {
    rep_bytes_piece(1, m.docs.map_values(|s: RpbSearchDocView| rpb_search_doc_bytes(s)))
        + opt_fixed32_piece(2, m.max_score)
        + opt_varint_piece(3, opt_u32_code(m.num_found))
}

/// What one field read from the wire does to a `RpbSearchQueryResp`: `None` where
/// the field has a known tag and a payload of another wire type, or a
/// nested message that does not read. Fields of unknown tags are skipped.
/// `ctx` is what is left of the nesting allowance of 100 messages: a
/// nested message, or an unknown field, needs some of it.
pub open spec fn rpb_search_query_resp_apply(m: RpbSearchQueryRespView, f: RawField, ctx: nat) -> Option<RpbSearchQueryRespView>
    decreases ctx, 0nat,
{
    if f.tag == 1 {
        match f.data {
            RawData::Bytes(b) => if ctx == 0 {
                None
            } else {
                match rpb_search_doc_merge(rpb_search_doc_empty(), b, (ctx - 1) as nat) {
                    Some(s) => Some(RpbSearchQueryRespView { docs: m.docs.push(s), ..m }),
                    None => None,
                }
            },
            _ => None,
        }
    } else if f.tag == 2 {
        match f.data {
            RawData::Fixed32(v) => Some(RpbSearchQueryRespView { max_score: Some(v), ..m }),
            _ => None,
        }
    } else if f.tag == 3 {
        match f.data {
            RawData::Varint(v) => Some(RpbSearchQueryRespView { num_found: Some(u32_of_code(v)), ..m }),
            _ => None,
        }
    } else if ctx == 0 {
        None
    } else {
        Some(m)
    }
}

/// Reads the fields of `s` into `m`, one after the other, as `prost`
/// merges a `RpbSearchQueryResp`.
pub open spec fn rpb_search_query_resp_merge(m: RpbSearchQueryRespView, s: Seq<u8>, ctx: nat) -> Option<RpbSearchQueryRespView>
    decreases ctx, s.len(),
{
    if s.len() == 0 {
        Some(m)
    } else {
        match field_parse(s, ctx) {
            Some((f, n)) => if 1 <= n <= s.len() {
                match rpb_search_query_resp_apply(m, f, ctx) {
                    Some(m2) => rpb_search_query_resp_merge(m2, s.skip(n as int), ctx),
                    None => None,
                }
            } else {
                None
            },
            None => None,
        }
    }
}

/// A `RpbSearchQueryResp` read from `s`, or `None` where `s` is malformed: its
/// fields merged into an empty message with the full allowance of 100.
pub open spec fn rpb_search_query_resp_decode(s: Seq<u8>) -> Option<RpbSearchQueryRespView> {
    rpb_search_query_resp_merge(rpb_search_query_resp_empty(), s, 100)
}

impl RpbSearchQueryResp {
    /// A `RpbSearchQueryResp` with no field set.
    pub fn empty() -> (r: RpbSearchQueryResp)
        ensures
            r@ == rpb_search_query_resp_empty(),
    {
        let r = RpbSearchQueryResp {
            docs: Vec::new(),
            max_score: None,
            num_found: None,
        };
        proof {
            assert(r.docs@.map_values(|m: RpbSearchDoc| m@) =~= Seq::<RpbSearchDocView>::empty());
        }
        r
    }

    /// Reads the fields of `buf` into this message, as `prost` merges a
    /// `RpbSearchQueryResp`.
    pub fn merge_from(&mut self, buf: &[u8], ctx: u32) -> (res: Result<(), DecodeError>)
        ensures
            match res {
                Ok(()) => rpb_search_query_resp_merge(old(self)@, buf@, ctx as nat) == Some(final(self)@),
                Err(_) => rpb_search_query_resp_merge(old(self)@, buf@, ctx as nat) is None,
            },
        decreases ctx, buf@.len(),
    {
        let mut rest = buf;
        while rest.len() > 0
            invariant
                rpb_search_query_resp_merge(old(self)@, buf@, ctx as nat) == rpb_search_query_resp_merge(self@, rest@, ctx as nat),
                rest@.len() <= buf@.len(),
            decreases rest@.len(),
        {
            let (f, r2) = match read_field(rest, ctx) {
                Ok(p) => p,
                Err(e) => return Err(e),
            };
            proof {
                lemma_field_parse_len(rest@, ctx as nat);
            }
            match self.apply_field(f, ctx) {
                Ok(()) => {},
                Err(e) => return Err(e),
            }
            rest = r2;
        }
        Ok(())
    }

    /// Reads a `RpbSearchQueryResp` from `buf`, with the full allowance of 100.
    pub fn decode(buf: &[u8]) -> (res: Result<RpbSearchQueryResp, DecodeError>)
        ensures
            match res {
                Ok(m) => rpb_search_query_resp_decode(buf@) == Some(m@),
                Err(_) => rpb_search_query_resp_decode(buf@) is None,
            },
    {
        let mut m = RpbSearchQueryResp::empty();
        match m.merge_from(buf, 100) {
            Ok(()) => Ok(m),
            Err(e) => Err(e),
        }
    }

    fn apply_field(&mut self, f: Field, ctx: u32) -> (res: Result<(), DecodeError>)
        ensures
            match res {
                Ok(()) => rpb_search_query_resp_apply(old(self)@, f@, ctx as nat) == Some(final(self)@),
                Err(_) => rpb_search_query_resp_apply(old(self)@, f@, ctx as nat) is None,
            },
        decreases ctx, 0nat,
    {
        let Field { tag, data } = f;
        if tag == 1 {
            match data {
                FieldData::Bytes(b) => {
                    if ctx == 0 {
                        return Err(decode_error("recursion limit reached"));
                    }
                    let mut s = RpbSearchDoc::empty();
                    match s.merge_from(b.as_slice(), ctx - 1) {
                        Ok(()) => {
                            let ghost prev = self.docs@.map_values(|m: RpbSearchDoc| m@);
                            let ghost sv = s@;
                            self.docs.push(s);
                            proof {
                                assert(self.docs@.map_values(|m: RpbSearchDoc| m@) =~= prev.push(sv));
                            }
                            Ok(())
                        },
                        Err(e) => Err(e),
                    }
                },
                _ => Err(decode_error("invalid wire type")),
            }
        } else if tag == 2 {
            match data {
                FieldData::Fixed32(v) => {
                    self.max_score = Some(v);
                    Ok(())
                },
                _ => Err(decode_error("invalid wire type")),
            }
        } else if tag == 3 {
            match data {
                FieldData::Varint(v) => {
                    self.num_found = Some(u32_from_code(v));
                    Ok(())
                },
                _ => Err(decode_error("invalid wire type")),
            }
        } else if ctx == 0 {
            Err(decode_error("recursion limit reached"))
        } else {
            Ok(())
        }
    }

}

/// A search index.
#[derive(Clone, Debug)]
pub struct RpbYokozunaIndex {
    pub name: Vec<u8>,
    pub schema: Option<Vec<u8>>,
    pub n_val: Option<u32>,
}

/// The value of a `RpbYokozunaIndex`.
pub struct RpbYokozunaIndexView {
    pub name: Seq<u8>,
    pub schema: Option<Seq<u8>>,
    pub n_val: Option<u32>,
}

impl View for RpbYokozunaIndex {
    type V = RpbYokozunaIndexView;

    open spec fn view(&self) -> RpbYokozunaIndexView {
        RpbYokozunaIndexView {
            name: self.name@,
            schema: opt_bytes_view(self.schema),
            n_val: self.n_val,
        }
    }
}

/// A `RpbYokozunaIndex` with no field set.
pub open spec fn rpb_yokozuna_index_empty() -> RpbYokozunaIndexView {
    RpbYokozunaIndexView {
        name: Seq::empty(),
        schema: None,
        n_val: None,
    }
}

/// The bytes of a `RpbYokozunaIndex`: its fields in the order of their tags.
pub open spec fn rpb_yokozuna_index_bytes(m: RpbYokozunaIndexView) -> Seq<u8> {
    bytes_piece(1, m.name)
        + opt_bytes_piece(2, m.schema)
        + opt_varint_piece(3, opt_u32_code(m.n_val))
}

/// What one field read from the wire does to a `RpbYokozunaIndex`: `None` where
/// the field has a known tag and a payload of another wire type, or a
/// nested message that does not read. Fields of unknown tags are skipped.
/// `ctx` is what is left of the nesting allowance of 100 messages: a
/// nested message, or an unknown field, needs some of it.
pub open spec fn rpb_yokozuna_index_apply(m: RpbYokozunaIndexView, f: RawField, ctx: nat) -> Option<RpbYokozunaIndexView>
    decreases ctx, 0nat,
{
    if f.tag == 1 {
        match f.data {
            RawData::Bytes(b) => Some(RpbYokozunaIndexView { name: b, ..m }),
            _ => None,
        }
    } else if f.tag == 2 {
        match f.data {
            RawData::Bytes(b) => Some(RpbYokozunaIndexView { schema: Some(b), ..m }),
            _ => None,
        }
    } else if f.tag == 3 {
        match f.data {
            RawData::Varint(v) => Some(RpbYokozunaIndexView { n_val: Some(u32_of_code(v)), ..m }),
            _ => None,
        }
    } else if ctx == 0 {
        None
    } else {
        Some(m)
    }
}

/// Reads the fields of `s` into `m`, one after the other, as `prost`
/// merges a `RpbYokozunaIndex`.
pub open spec fn rpb_yokozuna_index_merge(m: RpbYokozunaIndexView, s: Seq<u8>, ctx: nat) -> Option<RpbYokozunaIndexView>
    decreases ctx, s.len(),
{
    if s.len() == 0 {
        Some(m)
    } else {
        match field_parse(s, ctx) {
            Some((f, n)) => if 1 <= n <= s.len() {
                match rpb_yokozuna_index_apply(m, f, ctx) {
                    Some(m2) => rpb_yokozuna_index_merge(m2, s.skip(n as int), ctx),
                    None => None,
                }
            } else {
                None
            },
            None => None,
        }
    }
}

/// A `RpbYokozunaIndex` read from `s`, or `None` where `s` is malformed: its
/// fields merged into an empty message with the full allowance of 100.
pub open spec fn rpb_yokozuna_index_decode(s: Seq<u8>) -> Option<RpbYokozunaIndexView> {
    rpb_yokozuna_index_merge(rpb_yokozuna_index_empty(), s, 100)
}

impl RpbYokozunaIndex {
    /// A `RpbYokozunaIndex` with no field set.
    pub fn empty() -> (r: RpbYokozunaIndex)
        ensures
            r@ == rpb_yokozuna_index_empty(),
    {
        let r = RpbYokozunaIndex {
            name: Vec::new(),
            schema: None,
            n_val: None,
        };
        r
    }

    /// The bytes of this message, in a new buffer.
    pub fn encode_to_vec(&self) -> (r: Vec<u8>)
        ensures
            r@ == rpb_yokozuna_index_bytes(self@),
    {
        let mut buf: Vec<u8> = Vec::new();
        self.encode(&mut buf);
        proof {
            assert(buf@ =~= rpb_yokozuna_index_bytes(self@));
        }
        buf
    }

    /// Reads the fields of `buf` into this message, as `prost` merges a
    /// `RpbYokozunaIndex`.
    pub fn merge_from(&mut self, buf: &[u8], ctx: u32) -> (res: Result<(), DecodeError>)
        ensures
            match res {
                Ok(()) => rpb_yokozuna_index_merge(old(self)@, buf@, ctx as nat) == Some(final(self)@),
                Err(_) => rpb_yokozuna_index_merge(old(self)@, buf@, ctx as nat) is None,
            },
        decreases ctx, buf@.len(),
    {
        let mut rest = buf;
        while rest.len() > 0
            invariant
                rpb_yokozuna_index_merge(old(self)@, buf@, ctx as nat) == rpb_yokozuna_index_merge(self@, rest@, ctx as nat),
                rest@.len() <= buf@.len(),
            decreases rest@.len(),
        {
            let (f, r2) = match read_field(rest, ctx) {
                Ok(p) => p,
                Err(e) => return Err(e),
            };
            proof {
                lemma_field_parse_len(rest@, ctx as nat);
            }
            match self.apply_field(f, ctx) {
                Ok(()) => {},
                Err(e) => return Err(e),
            }
            rest = r2;
        }
        Ok(())
    }

    /// Reads a `RpbYokozunaIndex` from `buf`, with the full allowance of 100.
    pub fn decode(buf: &[u8]) -> (res: Result<RpbYokozunaIndex, DecodeError>)
        ensures
            match res {
                Ok(m) => rpb_yokozuna_index_decode(buf@) == Some(m@),
                Err(_) => rpb_yokozuna_index_decode(buf@) is None,
            },
    {
        let mut m = RpbYokozunaIndex::empty();
        match m.merge_from(buf, 100) {
            Ok(()) => Ok(m),
            Err(e) => Err(e),
        }
    }

    fn apply_field(&mut self, f: Field, ctx: u32) -> (res: Result<(), DecodeError>)
        ensures
            match res {
                Ok(()) => rpb_yokozuna_index_apply(old(self)@, f@, ctx as nat) == Some(final(self)@),
                Err(_) => rpb_yokozuna_index_apply(old(self)@, f@, ctx as nat) is None,
            },
        decreases ctx, 0nat,
    {
        let Field { tag, data } = f;
        if tag == 1 {
            match data {
                FieldData::Bytes(b) => {
                    self.name = b;
                    Ok(())
                },
                _ => Err(decode_error("invalid wire type")),
            }
        } else if tag == 2 {
            match data {
                FieldData::Bytes(b) => {
                    self.schema = Some(b);
                    Ok(())
                },
                _ => Err(decode_error("invalid wire type")),
            }
        } else if tag == 3 {
            match data {
                FieldData::Varint(v) => {
                    self.n_val = Some(u32_from_code(v));
                    Ok(())
                },
                _ => Err(decode_error("invalid wire type")),
            }
        } else if ctx == 0 {
            Err(decode_error("recursion limit reached"))
        } else {
            Ok(())
        }
    }

}

impl WireMessage for RpbYokozunaIndex {
    open spec fn wire_bytes(&self) -> Seq<u8> {
        rpb_yokozuna_index_bytes(self@)
    }

    fn encode(&self, buf: &mut Vec<u8>) {
        let ghost start = buf@;
        put_bytes_field(buf, 1, self.name.as_slice());
        let ghost mut acc = bytes_piece(1, self@.name);
        proof {
            assert(buf@ == start + acc);
        }
        put_opt_bytes(buf, 2, &self.schema);
        proof {
            lemma_concat_assoc(start, acc, opt_bytes_piece(2, self@.schema));
            acc = acc + opt_bytes_piece(2, self@.schema);
        }
        put_opt_u32(buf, 3, self.n_val);
        proof {
            lemma_concat_assoc(start, acc, opt_varint_piece(3, opt_u32_code(self@.n_val)));
            acc = acc + opt_varint_piece(3, opt_u32_code(self@.n_val));
        }
        proof {
            assert(acc == rpb_yokozuna_index_bytes(self@));
        }
    }
}

/// A request for a search index, or for all of them.
#[derive(Clone, Debug)]
pub struct RpbYokozunaIndexGetReq {
    pub name: Option<Vec<u8>>,
}

/// The value of a `RpbYokozunaIndexGetReq`.
pub struct RpbYokozunaIndexGetReqView {
    pub name: Option<Seq<u8>>,
}

impl View for RpbYokozunaIndexGetReq {
    type V = RpbYokozunaIndexGetReqView;

    open spec fn view(&self) -> RpbYokozunaIndexGetReqView {
        RpbYokozunaIndexGetReqView {
            name: opt_bytes_view(self.name),
        }
    }
}

/// A `RpbYokozunaIndexGetReq` with no field set.
pub open spec fn rpb_yokozuna_index_get_req_empty() -> RpbYokozunaIndexGetReqView {
    RpbYokozunaIndexGetReqView {
        name: None,
    }
}

/// The bytes of a `RpbYokozunaIndexGetReq`: its fields in the order of their tags.
pub open spec fn rpb_yokozuna_index_get_req_bytes(m: RpbYokozunaIndexGetReqView) -> Seq<u8> {
    opt_bytes_piece(1, m.name)
}

/// What one field read from the wire does to a `RpbYokozunaIndexGetReq`: `None` where
/// the field has a known tag and a payload of another wire type, or a
/// nested message that does not read. Fields of unknown tags are skipped.
/// `ctx` is what is left of the nesting allowance of 100 messages: a
/// nested message, or an unknown field, needs some of it.
pub open spec fn rpb_yokozuna_index_get_req_apply(m: RpbYokozunaIndexGetReqView, f: RawField, ctx: nat) -> Option<RpbYokozunaIndexGetReqView>
    decreases ctx, 0nat,
{
    if f.tag == 1 {
        match f.data {
            RawData::Bytes(b) => Some(RpbYokozunaIndexGetReqView { name: Some(b), ..m }),
            _ => None,
        }
    } else if ctx == 0 {
        None
    } else {
        Some(m)
    }
}

/// Reads the fields of `s` into `m`, one after the other, as `prost`
/// merges a `RpbYokozunaIndexGetReq`.
pub open spec fn rpb_yokozuna_index_get_req_merge(m: RpbYokozunaIndexGetReqView, s: Seq<u8>, ctx: nat) -> Option<RpbYokozunaIndexGetReqView>
    decreases ctx, s.len(),
{
    if s.len() == 0 {
        Some(m)
    } else {
        match field_parse(s, ctx) {
            Some((f, n)) => if 1 <= n <= s.len() {
                match rpb_yokozuna_index_get_req_apply(m, f, ctx) {
                    Some(m2) => rpb_yokozuna_index_get_req_merge(m2, s.skip(n as int), ctx),
                    None => None,
                }
            } else {
                None
            },
            None => None,
        }
    }
}

/// A `RpbYokozunaIndexGetReq` read from `s`, or `None` where `s` is malformed: its
/// fields merged into an empty message with the full allowance of 100.
pub open spec fn rpb_yokozuna_index_get_req_decode(s: Seq<u8>) -> Option<RpbYokozunaIndexGetReqView> {
    rpb_yokozuna_index_get_req_merge(rpb_yokozuna_index_get_req_empty(), s, 100)
}

impl RpbYokozunaIndexGetReq {
    /// A `RpbYokozunaIndexGetReq` with no field set.
    pub fn empty() -> (r: RpbYokozunaIndexGetReq)
        ensures
            r@ == rpb_yokozuna_index_get_req_empty(),
    {
        let r = RpbYokozunaIndexGetReq {
            name: None,
        };
        r
    }

    /// The bytes of this message, in a new buffer.
    pub fn encode_to_vec(&self) -> (r: Vec<u8>)
        ensures
            r@ == rpb_yokozuna_index_get_req_bytes(self@),
    {
        let mut buf: Vec<u8> = Vec::new();
        self.encode(&mut buf);
        proof {
            assert(buf@ =~= rpb_yokozuna_index_get_req_bytes(self@));
        }
        buf
    }

}

impl WireMessage for RpbYokozunaIndexGetReq {
    open spec fn wire_bytes(&self) -> Seq<u8> {
        rpb_yokozuna_index_get_req_bytes(self@)
    }

    fn encode(&self, buf: &mut Vec<u8>) {
        let ghost start = buf@;
        put_opt_bytes(buf, 1, &self.name);
        let ghost mut acc = opt_bytes_piece(1, self@.name);
        proof {
            assert(buf@ == start + acc);
        }
        proof {
            assert(acc == rpb_yokozuna_index_get_req_bytes(self@));
        }
    }
}

/// Search indexes as the server sends them.
#[derive(Clone, Debug)]
pub struct RpbYokozunaIndexGetResp {
    pub index: Vec<RpbYokozunaIndex>,
}

/// The value of a `RpbYokozunaIndexGetResp`.
pub struct RpbYokozunaIndexGetRespView {
    pub index: Seq<RpbYokozunaIndexView>,
}

impl View for RpbYokozunaIndexGetResp {
    type V = RpbYokozunaIndexGetRespView;

    open spec fn view(&self) -> RpbYokozunaIndexGetRespView {
        RpbYokozunaIndexGetRespView {
            index: self.index@.map_values(|m: RpbYokozunaIndex| m@),
        }
    }
}

/// A `RpbYokozunaIndexGetResp` with no field set.
pub open spec fn rpb_yokozuna_index_get_resp_empty() -> RpbYokozunaIndexGetRespView {
    RpbYokozunaIndexGetRespView {
        index: Seq::empty(),
    }
}

/// The bytes of a `RpbYokozunaIndexGetResp`: its fields in the order of their tags.
pub open spec fn rpb_yokozuna_index_get_resp_bytes(m: RpbYokozunaIndexGetRespView) -> Seq<u8> {
    rep_bytes_piece(1, m.index.map_values(|s: RpbYokozunaIndexView| rpb_yokozuna_index_bytes(s)))
}

/// What one field read from the wire does to a `RpbYokozunaIndexGetResp`: `None` where
/// the field has a known tag and a payload of another wire type, or a
/// nested message that does not read. Fields of unknown tags are skipped.
/// `ctx` is what is left of the nesting allowance of 100 messages: a
/// nested message, or an unknown field, needs some of it.
pub open spec fn rpb_yokozuna_index_get_resp_apply(m: RpbYokozunaIndexGetRespView, f: RawField, ctx: nat) -> Option<RpbYokozunaIndexGetRespView>
    decreases ctx, 0nat,
{
    if f.tag == 1 {
        match f.data {
            RawData::Bytes(b) => if ctx == 0 {
                None
            } else {
                match rpb_yokozuna_index_merge(rpb_yokozuna_index_empty(), b, (ctx - 1) as nat) {
                    Some(s) => Some(RpbYokozunaIndexGetRespView { index: m.index.push(s), ..m }),
                    None => None,
                }
            },
            _ => None,
        }
    } else if ctx == 0 {
        None
    } else {
        Some(m)
    }
}

/// Reads the fields of `s` into `m`, one after the other, as `prost`
/// merges a `RpbYokozunaIndexGetResp`.
pub open spec fn rpb_yokozuna_index_get_resp_merge(m: RpbYokozunaIndexGetRespView, s: Seq<u8>, ctx: nat) -> Option<RpbYokozunaIndexGetRespView>
    decreases ctx, s.len(),
{
    if s.len() == 0 {
        Some(m)
    } else {
        match field_parse(s, ctx) {
            Some((f, n)) => if 1 <= n <= s.len() {
                match rpb_yokozuna_index_get_resp_apply(m, f, ctx) {
                    Some(m2) => rpb_yokozuna_index_get_resp_merge(m2, s.skip(n as int), ctx),
                    None => None,
                }
            } else {
                None
            },
            None => None,
        }
    }
}

/// A `RpbYokozunaIndexGetResp` read from `s`, or `None` where `s` is malformed: its
/// fields merged into an empty message with the full allowance of 100.
pub open spec fn rpb_yokozuna_index_get_resp_decode(s: Seq<u8>) -> Option<RpbYokozunaIndexGetRespView> {
    rpb_yokozuna_index_get_resp_merge(rpb_yokozuna_index_get_resp_empty(), s, 100)
}

impl RpbYokozunaIndexGetResp {
    /// A `RpbYokozunaIndexGetResp` with no field set.
    pub fn empty() -> (r: RpbYokozunaIndexGetResp)
        ensures
            r@ == rpb_yokozuna_index_get_resp_empty(),
    {
        let r = RpbYokozunaIndexGetResp {
            index: Vec::new(),
        };
        proof {
            assert(r.index@.map_values(|m: RpbYokozunaIndex| m@) =~= Seq::<RpbYokozunaIndexView>::empty());
        }
        r
    }

    /// Reads the fields of `buf` into this message, as `prost` merges a
    /// `RpbYokozunaIndexGetResp`.
    pub fn merge_from(&mut self, buf: &[u8], ctx: u32) -> (res: Result<(), DecodeError>)
        ensures
            match res {
                Ok(()) => rpb_yokozuna_index_get_resp_merge(old(self)@, buf@, ctx as nat) == Some(final(self)@),
                Err(_) => rpb_yokozuna_index_get_resp_merge(old(self)@, buf@, ctx as nat) is None,
            },
        decreases ctx, buf@.len(),
    {
        let mut rest = buf;
        while rest.len() > 0
            invariant
                rpb_yokozuna_index_get_resp_merge(old(self)@, buf@, ctx as nat) == rpb_yokozuna_index_get_resp_merge(self@, rest@, ctx as nat),
                rest@.len() <= buf@.len(),
            decreases rest@.len(),
        {
            let (f, r2) = match read_field(rest, ctx) {
                Ok(p) => p,
                Err(e) => return Err(e),
            };
            proof {
                lemma_field_parse_len(rest@, ctx as nat);
            }
            match self.apply_field(f, ctx) {
                Ok(()) => {},
                Err(e) => return Err(e),
            }
            rest = r2;
        }
        Ok(())
    }

    /// Reads a `RpbYokozunaIndexGetResp` from `buf`, with the full allowance of 100.
    pub fn decode(buf: &[u8]) -> (res: Result<RpbYokozunaIndexGetResp, DecodeError>)
        ensures
            match res {
                Ok(m) => rpb_yokozuna_index_get_resp_decode(buf@) == Some(m@),
                Err(_) => rpb_yokozuna_index_get_resp_decode(buf@) is None,
            },
    {
        let mut m = RpbYokozunaIndexGetResp::empty();
        match m.merge_from(buf, 100) {
            Ok(()) => Ok(m),
            Err(e) => Err(e),
        }
    }

    fn apply_field(&mut self, f: Field, ctx: u32) -> (res: Result<(), DecodeError>)
        ensures
            match res {
                Ok(()) => rpb_yokozuna_index_get_resp_apply(old(self)@, f@, ctx as nat) == Some(final(self)@),
                Err(_) => rpb_yokozuna_index_get_resp_apply(old(self)@, f@, ctx as nat) is None,
            },
        decreases ctx, 0nat,
    {
        let Field { tag, data } = f;
        if tag == 1 {
            match data {
                FieldData::Bytes(b) => {
                    if ctx == 0 {
                        return Err(decode_error("recursion limit reached"));
                    }
                    let mut s = RpbYokozunaIndex::empty();
                    match s.merge_from(b.as_slice(), ctx - 1) {
                        Ok(()) => {
                            let ghost prev = self.index@.map_values(|m: RpbYokozunaIndex| m@);
                            let ghost sv = s@;
                            self.index.push(s);
                            proof {
                                assert(self.index@.map_values(|m: RpbYokozunaIndex| m@) =~= prev.push(sv));
                            }
                            Ok(())
                        },
                        Err(e) => Err(e),
                    }
                },
                _ => Err(decode_error("invalid wire type")),
            }
        } else if ctx == 0 {
            Err(decode_error("recursion limit reached"))
        } else {
            Ok(())
        }
    }

}

/// A request to create a search index.
#[derive(Clone, Debug)]
pub struct RpbYokozunaIndexPutReq {
    pub index: RpbYokozunaIndex,
    pub timeout: Option<u32>,
}

/// The value of a `RpbYokozunaIndexPutReq`.
pub struct RpbYokozunaIndexPutReqView {
    pub index: RpbYokozunaIndexView,
    pub timeout: Option<u32>,
}

impl View for RpbYokozunaIndexPutReq {
    type V = RpbYokozunaIndexPutReqView;

    open spec fn view(&self) -> RpbYokozunaIndexPutReqView {
        RpbYokozunaIndexPutReqView {
            index: self.index@,
            timeout: self.timeout,
        }
    }
}

/// A `RpbYokozunaIndexPutReq` with no field set.
pub open spec fn rpb_yokozuna_index_put_req_empty() -> RpbYokozunaIndexPutReqView {
    RpbYokozunaIndexPutReqView {
        index: rpb_yokozuna_index_empty(),
        timeout: None,
    }
}

/// The bytes of a `RpbYokozunaIndexPutReq`: its fields in the order of their tags.
pub open spec fn rpb_yokozuna_index_put_req_bytes(m: RpbYokozunaIndexPutReqView) -> Seq<u8> {
    bytes_piece(1, rpb_yokozuna_index_bytes(m.index))
        + opt_varint_piece(2, opt_u32_code(m.timeout))
}

/// What one field read from the wire does to a `RpbYokozunaIndexPutReq`: `None` where
/// the field has a known tag and a payload of another wire type, or a
/// nested message that does not read. Fields of unknown tags are skipped.
/// `ctx` is what is left of the nesting allowance of 100 messages: a
/// nested message, or an unknown field, needs some of it.
pub open spec fn rpb_yokozuna_index_put_req_apply(m: RpbYokozunaIndexPutReqView, f: RawField, ctx: nat) -> Option<RpbYokozunaIndexPutReqView>
    decreases ctx, 0nat,
{
    if f.tag == 1 {
        match f.data {
            RawData::Bytes(b) => if ctx == 0 {
                None
            } else {
                match rpb_yokozuna_index_merge(m.index, b, (ctx - 1) as nat) {
                    Some(s) => Some(RpbYokozunaIndexPutReqView { index: s, ..m }),
                    None => None,
                }
            },
            _ => None,
        }
    } else if f.tag == 2 {
        match f.data {
            RawData::Varint(v) => Some(RpbYokozunaIndexPutReqView { timeout: Some(u32_of_code(v)), ..m }),
            _ => None,
        }
    } else if ctx == 0 {
        None
    } else {
        Some(m)
    }
}

/// Reads the fields of `s` into `m`, one after the other, as `prost`
/// merges a `RpbYokozunaIndexPutReq`.
pub open spec fn rpb_yokozuna_index_put_req_merge(m: RpbYokozunaIndexPutReqView, s: Seq<u8>, ctx: nat) -> Option<RpbYokozunaIndexPutReqView>
    decreases ctx, s.len(),
{
    if s.len() == 0 {
        Some(m)
    } else {
        match field_parse(s, ctx) {
            Some((f, n)) => if 1 <= n <= s.len() {
                match rpb_yokozuna_index_put_req_apply(m, f, ctx) {
                    Some(m2) => rpb_yokozuna_index_put_req_merge(m2, s.skip(n as int), ctx),
                    None => None,
                }
            } else {
                None
            },
            None => None,
        }
    }
}

/// A `RpbYokozunaIndexPutReq` read from `s`, or `None` where `s` is malformed: its
/// fields merged into an empty message with the full allowance of 100.
pub open spec fn rpb_yokozuna_index_put_req_decode(s: Seq<u8>) -> Option<RpbYokozunaIndexPutReqView> {
    rpb_yokozuna_index_put_req_merge(rpb_yokozuna_index_put_req_empty(), s, 100)
}

impl RpbYokozunaIndexPutReq {
    /// A `RpbYokozunaIndexPutReq` with no field set.
    pub fn empty() -> (r: RpbYokozunaIndexPutReq)
        ensures
            r@ == rpb_yokozuna_index_put_req_empty(),
    {
        let r = RpbYokozunaIndexPutReq {
            index: RpbYokozunaIndex::empty(),
            timeout: None,
        };
        r
    }

    /// The bytes of this message, in a new buffer.
    pub fn encode_to_vec(&self) -> (r: Vec<u8>)
        ensures
            r@ == rpb_yokozuna_index_put_req_bytes(self@),
    {
        let mut buf: Vec<u8> = Vec::new();
        self.encode(&mut buf);
        proof {
            assert(buf@ =~= rpb_yokozuna_index_put_req_bytes(self@));
        }
        buf
    }

}

impl WireMessage for RpbYokozunaIndexPutReq {
    open spec fn wire_bytes(&self) -> Seq<u8> {
        rpb_yokozuna_index_put_req_bytes(self@)
    }

    fn encode(&self, buf: &mut Vec<u8>) {
        let ghost start = buf@;
        put_message(buf, 1, &self.index);
        let ghost mut acc = bytes_piece(1, rpb_yokozuna_index_bytes(self@.index));
        proof {
            assert(buf@ == start + acc);
        }
        put_opt_u32(buf, 2, self.timeout);
        proof {
            lemma_concat_assoc(start, acc, opt_varint_piece(2, opt_u32_code(self@.timeout)));
            acc = acc + opt_varint_piece(2, opt_u32_code(self@.timeout));
        }
        proof {
            assert(acc == rpb_yokozuna_index_put_req_bytes(self@));
        }
    }
}

/// A request to delete a search index.
#[derive(Clone, Debug)]
pub struct RpbYokozunaIndexDeleteReq {
    pub name: Vec<u8>,
}

/// The value of a `RpbYokozunaIndexDeleteReq`.
pub struct RpbYokozunaIndexDeleteReqView {
    pub name: Seq<u8>,
}

impl View for RpbYokozunaIndexDeleteReq {
    type V = RpbYokozunaIndexDeleteReqView;

    open spec fn view(&self) -> RpbYokozunaIndexDeleteReqView {
        RpbYokozunaIndexDeleteReqView {
            name: self.name@,
        }
    }
}

/// A `RpbYokozunaIndexDeleteReq` with no field set.
pub open spec fn rpb_yokozuna_index_delete_req_empty() -> RpbYokozunaIndexDeleteReqView {
    RpbYokozunaIndexDeleteReqView {
        name: Seq::empty(),
    }
}

/// The bytes of a `RpbYokozunaIndexDeleteReq`: its fields in the order of their tags.
pub open spec fn rpb_yokozuna_index_delete_req_bytes(m: RpbYokozunaIndexDeleteReqView) -> Seq<u8> {
    bytes_piece(1, m.name)
}

/// What one field read from the wire does to a `RpbYokozunaIndexDeleteReq`: `None` where
/// the field has a known tag and a payload of another wire type, or a
/// nested message that does not read. Fields of unknown tags are skipped.
/// `ctx` is what is left of the nesting allowance of 100 messages: a
/// nested message, or an unknown field, needs some of it.
pub open spec fn rpb_yokozuna_index_delete_req_apply(m: RpbYokozunaIndexDeleteReqView, f: RawField, ctx: nat) -> Option<RpbYokozunaIndexDeleteReqView>
    decreases ctx, 0nat,
{
    if f.tag == 1 {
        match f.data {
            RawData::Bytes(b) => Some(RpbYokozunaIndexDeleteReqView { name: b, ..m }),
            _ => None,
        }
    } else if ctx == 0 {
        None
    } else {
        Some(m)
    }
}

/// Reads the fields of `s` into `m`, one after the other, as `prost`
/// merges a `RpbYokozunaIndexDeleteReq`.
pub open spec fn rpb_yokozuna_index_delete_req_merge(m: RpbYokozunaIndexDeleteReqView, s: Seq<u8>, ctx: nat) -> Option<RpbYokozunaIndexDeleteReqView>
    decreases ctx, s.len(),
{
    if s.len() == 0 {
        Some(m)
    } else {
        match field_parse(s, ctx) {
            Some((f, n)) => if 1 <= n <= s.len() {
                match rpb_yokozuna_index_delete_req_apply(m, f, ctx) {
                    Some(m2) => rpb_yokozuna_index_delete_req_merge(m2, s.skip(n as int), ctx),
                    None => None,
                }
            } else {
                None
            },
            None => None,
        }
    }
}

/// A `RpbYokozunaIndexDeleteReq` read from `s`, or `None` where `s` is malformed: its
/// fields merged into an empty message with the full allowance of 100.
pub open spec fn rpb_yokozuna_index_delete_req_decode(s: Seq<u8>) -> Option<RpbYokozunaIndexDeleteReqView> {
    rpb_yokozuna_index_delete_req_merge(rpb_yokozuna_index_delete_req_empty(), s, 100)
}

impl RpbYokozunaIndexDeleteReq {
    /// A `RpbYokozunaIndexDeleteReq` with no field set.
    pub fn empty() -> (r: RpbYokozunaIndexDeleteReq)
        ensures
            r@ == rpb_yokozuna_index_delete_req_empty(),
    {
        let r = RpbYokozunaIndexDeleteReq {
            name: Vec::new(),
        };
        r
    }

    /// The bytes of this message, in a new buffer.
    pub fn encode_to_vec(&self) -> (r: Vec<u8>)
        ensures
            r@ == rpb_yokozuna_index_delete_req_bytes(self@),
    {
        let mut buf: Vec<u8> = Vec::new();
        self.encode(&mut buf);
        proof {
            assert(buf@ =~= rpb_yokozuna_index_delete_req_bytes(self@));
        }
        buf
    }

}

impl WireMessage for RpbYokozunaIndexDeleteReq {
    open spec fn wire_bytes(&self) -> Seq<u8> {
        rpb_yokozuna_index_delete_req_bytes(self@)
    }

    fn encode(&self, buf: &mut Vec<u8>) {
        let ghost start = buf@;
        put_bytes_field(buf, 1, self.name.as_slice());
        let ghost mut acc = bytes_piece(1, self@.name);
        proof {
            assert(buf@ == start + acc);
        }
        proof {
            assert(acc == rpb_yokozuna_index_delete_req_bytes(self@));
        }
    }
}

/// A search schema.
#[derive(Clone, Debug)]
pub struct RpbYokozunaSchema {
    pub name: Vec<u8>,
    pub content: Option<Vec<u8>>,
}

/// The value of a `RpbYokozunaSchema`.
pub struct RpbYokozunaSchemaView {
    pub name: Seq<u8>,
    pub content: Option<Seq<u8>>,
}

impl View for RpbYokozunaSchema {
    type V = RpbYokozunaSchemaView;

    open spec fn view(&self) -> RpbYokozunaSchemaView {
        RpbYokozunaSchemaView {
            name: self.name@,
            content: opt_bytes_view(self.content),
        }
    }
}

/// A `RpbYokozunaSchema` with no field set.
pub open spec fn rpb_yokozuna_schema_empty() -> RpbYokozunaSchemaView {
    RpbYokozunaSchemaView {
        name: Seq::empty(),
        content: None,
    }
}

/// The bytes of a `RpbYokozunaSchema`: its fields in the order of their tags.
pub open spec fn rpb_yokozuna_schema_bytes(m: RpbYokozunaSchemaView) -> Seq<u8> {
    bytes_piece(1, m.name)
        + opt_bytes_piece(2, m.content)
}

/// What one field read from the wire does to a `RpbYokozunaSchema`: `None` where
/// the field has a known tag and a payload of another wire type, or a
/// nested message that does not read. Fields of unknown tags are skipped.
/// `ctx` is what is left of the nesting allowance of 100 messages: a
/// nested message, or an unknown field, needs some of it.
pub open spec fn rpb_yokozuna_schema_apply(m: RpbYokozunaSchemaView, f: RawField, ctx: nat) -> Option<RpbYokozunaSchemaView>
    decreases ctx, 0nat,
{
    if f.tag == 1 {
        match f.data {
            RawData::Bytes(b) => Some(RpbYokozunaSchemaView { name: b, ..m }),
            _ => None,
        }
    } else if f.tag == 2 {
        match f.data {
            RawData::Bytes(b) => Some(RpbYokozunaSchemaView { content: Some(b), ..m }),
            _ => None,
        }
    } else if ctx == 0 {
        None
    } else {
        Some(m)
    }
}

/// Reads the fields of `s` into `m`, one after the other, as `prost`
/// merges a `RpbYokozunaSchema`.
pub open spec fn rpb_yokozuna_schema_merge(m: RpbYokozunaSchemaView, s: Seq<u8>, ctx: nat) -> Option<RpbYokozunaSchemaView>
    decreases ctx, s.len(),
{
    if s.len() == 0 {
        Some(m)
    } else {
        match field_parse(s, ctx) {
            Some((f, n)) => if 1 <= n <= s.len() {
                match rpb_yokozuna_schema_apply(m, f, ctx) {
                    Some(m2) => rpb_yokozuna_schema_merge(m2, s.skip(n as int), ctx),
                    None => None,
                }
            } else {
                None
            },
            None => None,
        }
    }
}

/// A `RpbYokozunaSchema` read from `s`, or `None` where `s` is malformed: its
/// fields merged into an empty message with the full allowance of 100.
pub open spec fn rpb_yokozuna_schema_decode(s: Seq<u8>) -> Option<RpbYokozunaSchemaView> {
    rpb_yokozuna_schema_merge(rpb_yokozuna_schema_empty(), s, 100)
}

impl RpbYokozunaSchema {
    /// A `RpbYokozunaSchema` with no field set.
    pub fn empty() -> (r: RpbYokozunaSchema)
        ensures
            r@ == rpb_yokozuna_schema_empty(),
    {
        let r = RpbYokozunaSchema {
            name: Vec::new(),
            content: None,
        };
        r
    }

    /// The bytes of this message, in a new buffer.
    pub fn encode_to_vec(&self) -> (r: Vec<u8>)
        ensures
            r@ == rpb_yokozuna_schema_bytes(self@),
    {
        let mut buf: Vec<u8> = Vec::new();
        self.encode(&mut buf);
        proof {
            assert(buf@ =~= rpb_yokozuna_schema_bytes(self@));
        }
        buf
    }

    /// Reads the fields of `buf` into this message, as `prost` merges a
    /// `RpbYokozunaSchema`.
    pub fn merge_from(&mut self, buf: &[u8], ctx: u32) -> (res: Result<(), DecodeError>)
        ensures
            match res {
                Ok(()) => rpb_yokozuna_schema_merge(old(self)@, buf@, ctx as nat) == Some(final(self)@),
                Err(_) => rpb_yokozuna_schema_merge(old(self)@, buf@, ctx as nat) is None,
            },
        decreases ctx, buf@.len(),
    {
        let mut rest = buf;
        while rest.len() > 0
            invariant
                rpb_yokozuna_schema_merge(old(self)@, buf@, ctx as nat) == rpb_yokozuna_schema_merge(self@, rest@, ctx as nat),
                rest@.len() <= buf@.len(),
            decreases rest@.len(),
        {
            let (f, r2) = match read_field(rest, ctx) {
                Ok(p) => p,
                Err(e) => return Err(e),
            };
            proof {
                lemma_field_parse_len(rest@, ctx as nat);
            }
            match self.apply_field(f, ctx) {
                Ok(()) => {},
                Err(e) => return Err(e),
            }
            rest = r2;
        }
        Ok(())
    }

    /// Reads a `RpbYokozunaSchema` from `buf`, with the full allowance of 100.
    pub fn decode(buf: &[u8]) -> (res: Result<RpbYokozunaSchema, DecodeError>)
        ensures
            match res {
                Ok(m) => rpb_yokozuna_schema_decode(buf@) == Some(m@),
                Err(_) => rpb_yokozuna_schema_decode(buf@) is None,
            },
    {
        let mut m = RpbYokozunaSchema::empty();
        match m.merge_from(buf, 100) {
            Ok(()) => Ok(m),
            Err(e) => Err(e),
        }
    }

    fn apply_field(&mut self, f: Field, ctx: u32) -> (res: Result<(), DecodeError>)
        ensures
            match res {
                Ok(()) => rpb_yokozuna_schema_apply(old(self)@, f@, ctx as nat) == Some(final(self)@),
                Err(_) => rpb_yokozuna_schema_apply(old(self)@, f@, ctx as nat) is None,
            },
        decreases ctx, 0nat,
    {
        let Field { tag, data } = f;
        if tag == 1 {
            match data {
                FieldData::Bytes(b) => {
                    self.name = b;
                    Ok(())
                },
                _ => Err(decode_error("invalid wire type")),
            }
        } else if tag == 2 {
            match data {
                FieldData::Bytes(b) => {
                    self.content = Some(b);
                    Ok(())
                },
                _ => Err(decode_error("invalid wire type")),
            }
        } else if ctx == 0 {
            Err(decode_error("recursion limit reached"))
        } else {
            Ok(())
        }
    }

}

impl WireMessage for RpbYokozunaSchema {
    open spec fn wire_bytes(&self) -> Seq<u8> {
        rpb_yokozuna_schema_bytes(self@)
    }

    fn encode(&self, buf: &mut Vec<u8>) {
        let ghost start = buf@;
        put_bytes_field(buf, 1, self.name.as_slice());
        let ghost mut acc = bytes_piece(1, self@.name);
        proof {
            assert(buf@ == start + acc);
        }
        put_opt_bytes(buf, 2, &self.content);
        proof {
            lemma_concat_assoc(start, acc, opt_bytes_piece(2, self@.content));
            acc = acc + opt_bytes_piece(2, self@.content);
        }
        proof {
            assert(acc == rpb_yokozuna_schema_bytes(self@));
        }
    }
}

/// A request to store a search schema.
#[derive(Clone, Debug)]
pub struct RpbYokozunaSchemaPutReq {
    pub schema: RpbYokozunaSchema,
}

/// The value of a `RpbYokozunaSchemaPutReq`.
pub struct RpbYokozunaSchemaPutReqView {
    pub schema: RpbYokozunaSchemaView,
}

impl View for RpbYokozunaSchemaPutReq {
    type V = RpbYokozunaSchemaPutReqView;

    open spec fn view(&self) -> RpbYokozunaSchemaPutReqView {
        RpbYokozunaSchemaPutReqView {
            schema: self.schema@,
        }
    }
}

/// A `RpbYokozunaSchemaPutReq` with no field set.
pub open spec fn rpb_yokozuna_schema_put_req_empty() -> RpbYokozunaSchemaPutReqView {
    RpbYokozunaSchemaPutReqView {
        schema: rpb_yokozuna_schema_empty(),
    }
}

/// The bytes of a `RpbYokozunaSchemaPutReq`: its fields in the order of their tags.
pub open spec fn rpb_yokozuna_schema_put_req_bytes(m: RpbYokozunaSchemaPutReqView) -> Seq<u8> {
    bytes_piece(1, rpb_yokozuna_schema_bytes(m.schema))
}

/// What one field read from the wire does to a `RpbYokozunaSchemaPutReq`: `None` where
/// the field has a known tag and a payload of another wire type, or a
/// nested message that does not read. Fields of unknown tags are skipped.
/// `ctx` is what is left of the nesting allowance of 100 messages: a
/// nested message, or an unknown field, needs some of it.
pub open spec fn rpb_yokozuna_schema_put_req_apply(m: RpbYokozunaSchemaPutReqView, f: RawField, ctx: nat) -> Option<RpbYokozunaSchemaPutReqView>
    decreases ctx, 0nat,
{
    if f.tag == 1 {
        match f.data {
            RawData::Bytes(b) => if ctx == 0 {
                None
            } else {
                match rpb_yokozuna_schema_merge(m.schema, b, (ctx - 1) as nat) {
                    Some(s) => Some(RpbYokozunaSchemaPutReqView { schema: s, ..m }),
                    None => None,
                }
            },
            _ => None,
        }
    } else if ctx == 0 {
        None
    } else {
        Some(m)
    }
}

/// Reads the fields of `s` into `m`, one after the other, as `prost`
/// merges a `RpbYokozunaSchemaPutReq`.
pub open spec fn rpb_yokozuna_schema_put_req_merge(m: RpbYokozunaSchemaPutReqView, s: Seq<u8>, ctx: nat) -> Option<RpbYokozunaSchemaPutReqView>
    decreases ctx, s.len(),
{
    if s.len() == 0 {
        Some(m)
    } else {
        match field_parse(s, ctx) {
            Some((f, n)) => if 1 <= n <= s.len() {
                match rpb_yokozuna_schema_put_req_apply(m, f, ctx) {
                    Some(m2) => rpb_yokozuna_schema_put_req_merge(m2, s.skip(n as int), ctx),
                    None => None,
                }
            } else {
                None
            },
            None => None,
        }
    }
}

/// A `RpbYokozunaSchemaPutReq` read from `s`, or `None` where `s` is malformed: its
/// fields merged into an empty message with the full allowance of 100.
pub open spec fn rpb_yokozuna_schema_put_req_decode(s: Seq<u8>) -> Option<RpbYokozunaSchemaPutReqView> {
    rpb_yokozuna_schema_put_req_merge(rpb_yokozuna_schema_put_req_empty(), s, 100)
}

impl RpbYokozunaSchemaPutReq {
    /// A `RpbYokozunaSchemaPutReq` with no field set.
    pub fn empty() -> (r: RpbYokozunaSchemaPutReq)
        ensures
            r@ == rpb_yokozuna_schema_put_req_empty(),
    {
        let r = RpbYokozunaSchemaPutReq {
            schema: RpbYokozunaSchema::empty(),
        };
        r
    }

    /// The bytes of this message, in a new buffer.
    pub fn encode_to_vec(&self) -> (r: Vec<u8>)
        ensures
            r@ == rpb_yokozuna_schema_put_req_bytes(self@),
    {
        let mut buf: Vec<u8> = Vec::new();
        self.encode(&mut buf);
        proof {
            assert(buf@ =~= rpb_yokozuna_schema_put_req_bytes(self@));
        }
        buf
    }

}

impl WireMessage for RpbYokozunaSchemaPutReq {
    open spec fn wire_bytes(&self) -> Seq<u8> {
        rpb_yokozuna_schema_put_req_bytes(self@)
    }

    fn encode(&self, buf: &mut Vec<u8>) {
        let ghost start = buf@;
        put_message(buf, 1, &self.schema);
        let ghost mut acc = bytes_piece(1, rpb_yokozuna_schema_bytes(self@.schema));
        proof {
            assert(buf@ == start + acc);
        }
        proof {
            assert(acc == rpb_yokozuna_schema_put_req_bytes(self@));
        }
    }
}

/// A request for a search schema.
#[derive(Clone, Debug)]
pub struct RpbYokozunaSchemaGetReq {
    pub name: Vec<u8>,
}

/// The value of a `RpbYokozunaSchemaGetReq`.
pub struct RpbYokozunaSchemaGetReqView {
    pub name: Seq<u8>,
}

impl View for RpbYokozunaSchemaGetReq {
    type V = RpbYokozunaSchemaGetReqView;

    open spec fn view(&self) -> RpbYokozunaSchemaGetReqView {
        RpbYokozunaSchemaGetReqView {
            name: self.name@,
        }
    }
}

/// A `RpbYokozunaSchemaGetReq` with no field set.
pub open spec fn rpb_yokozuna_schema_get_req_empty() -> RpbYokozunaSchemaGetReqView {
    RpbYokozunaSchemaGetReqView {
        name: Seq::empty(),
    }
}

/// The bytes of a `RpbYokozunaSchemaGetReq`: its fields in the order of their tags.
pub open spec fn rpb_yokozuna_schema_get_req_bytes(m: RpbYokozunaSchemaGetReqView) -> Seq<u8> {
    bytes_piece(1, m.name)
}

/// What one field read from the wire does to a `RpbYokozunaSchemaGetReq`: `None` where
/// the field has a known tag and a payload of another wire type, or a
/// nested message that does not read. Fields of unknown tags are skipped.
/// `ctx` is what is left of the nesting allowance of 100 messages: a
/// nested message, or an unknown field, needs some of it.
pub open spec fn rpb_yokozuna_schema_get_req_apply(m: RpbYokozunaSchemaGetReqView, f: RawField, ctx: nat) -> Option<RpbYokozunaSchemaGetReqView>
    decreases ctx, 0nat,
{
    if f.tag == 1 {
        match f.data {
            RawData::Bytes(b) => Some(RpbYokozunaSchemaGetReqView { name: b, ..m }),
            _ => None,
        }
    } else if ctx == 0 {
        None
    } else {
        Some(m)
    }
}

/// Reads the fields of `s` into `m`, one after the other, as `prost`
/// merges a `RpbYokozunaSchemaGetReq`.
pub open spec fn rpb_yokozuna_schema_get_req_merge(m: RpbYokozunaSchemaGetReqView, s: Seq<u8>, ctx: nat) -> Option<RpbYokozunaSchemaGetReqView>
    decreases ctx, s.len(),
{
    if s.len() == 0 {
        Some(m)
    } else {
        match field_parse(s, ctx) {
            Some((f, n)) => if 1 <= n <= s.len() {
                match rpb_yokozuna_schema_get_req_apply(m, f, ctx) {
                    Some(m2) => rpb_yokozuna_schema_get_req_merge(m2, s.skip(n as int), ctx),
                    None => None,
                }
            } else {
                None
            },
            None => None,
        }
    }
}

/// A `RpbYokozunaSchemaGetReq` read from `s`, or `None` where `s` is malformed: its
/// fields merged into an empty message with the full allowance of 100.
pub open spec fn rpb_yokozuna_schema_get_req_decode(s: Seq<u8>) -> Option<RpbYokozunaSchemaGetReqView> {
    rpb_yokozuna_schema_get_req_merge(rpb_yokozuna_schema_get_req_empty(), s, 100)
}

impl RpbYokozunaSchemaGetReq {
    /// A `RpbYokozunaSchemaGetReq` with no field set.
    pub fn empty() -> (r: RpbYokozunaSchemaGetReq)
        ensures
            r@ == rpb_yokozuna_schema_get_req_empty(),
    {
        let r = RpbYokozunaSchemaGetReq {
            name: Vec::new(),
        };
        r
    }

    /// The bytes of this message, in a new buffer.
    pub fn encode_to_vec(&self) -> (r: Vec<u8>)
        ensures
            r@ == rpb_yokozuna_schema_get_req_bytes(self@),
    {
        let mut buf: Vec<u8> = Vec::new();
        self.encode(&mut buf);
        proof {
            assert(buf@ =~= rpb_yokozuna_schema_get_req_bytes(self@));
        }
        buf
    }

}

impl WireMessage for RpbYokozunaSchemaGetReq {
    open spec fn wire_bytes(&self) -> Seq<u8> {
        rpb_yokozuna_schema_get_req_bytes(self@)
    }

    fn encode(&self, buf: &mut Vec<u8>) {
        let ghost start = buf@;
        put_bytes_field(buf, 1, self.name.as_slice());
        let ghost mut acc = bytes_piece(1, self@.name);
        proof {
            assert(buf@ == start + acc);
        }
        proof {
            assert(acc == rpb_yokozuna_schema_get_req_bytes(self@));
        }
    }
}

/// A search schema as the server sends it.
#[derive(Clone, Debug)]
pub struct RpbYokozunaSchemaGetResp {
    pub schema: RpbYokozunaSchema,
}

/// The value of a `RpbYokozunaSchemaGetResp`.
pub struct RpbYokozunaSchemaGetRespView {
    pub schema: RpbYokozunaSchemaView,
}

impl View for RpbYokozunaSchemaGetResp {
    type V = RpbYokozunaSchemaGetRespView;

    open spec fn view(&self) -> RpbYokozunaSchemaGetRespView {
        RpbYokozunaSchemaGetRespView {
            schema: self.schema@,
        }
    }
}

/// A `RpbYokozunaSchemaGetResp` with no field set.
pub open spec fn rpb_yokozuna_schema_get_resp_empty() -> RpbYokozunaSchemaGetRespView {
    RpbYokozunaSchemaGetRespView {
        schema: rpb_yokozuna_schema_empty(),
    }
}

/// The bytes of a `RpbYokozunaSchemaGetResp`: its fields in the order of their tags.
pub open spec fn rpb_yokozuna_schema_get_resp_bytes(m: RpbYokozunaSchemaGetRespView) -> Seq<u8> {
    bytes_piece(1, rpb_yokozuna_schema_bytes(m.schema))
}

/// What one field read from the wire does to a `RpbYokozunaSchemaGetResp`: `None` where
/// the field has a known tag and a payload of another wire type, or a
/// nested message that does not read. Fields of unknown tags are skipped.
/// `ctx` is what is left of the nesting allowance of 100 messages: a
/// nested message, or an unknown field, needs some of it.
pub open spec fn rpb_yokozuna_schema_get_resp_apply(m: RpbYokozunaSchemaGetRespView, f: RawField, ctx: nat) -> Option<RpbYokozunaSchemaGetRespView>
    decreases ctx, 0nat,
{
    if f.tag == 1 {
        match f.data {
            RawData::Bytes(b) => if ctx == 0 {
                None
            } else {
                match rpb_yokozuna_schema_merge(m.schema, b, (ctx - 1) as nat) {
                    Some(s) => Some(RpbYokozunaSchemaGetRespView { schema: s, ..m }),
                    None => None,
                }
            },
            _ => None,
        }
    } else if ctx == 0 {
        None
    } else {
        Some(m)
    }
}

/// Reads the fields of `s` into `m`, one after the other, as `prost`
/// merges a `RpbYokozunaSchemaGetResp`.
pub open spec fn rpb_yokozuna_schema_get_resp_merge(m: RpbYokozunaSchemaGetRespView, s: Seq<u8>, ctx: nat) -> Option<RpbYokozunaSchemaGetRespView>
    decreases ctx, s.len(),
{
    if s.len() == 0 {
        Some(m)
    } else {
        match field_parse(s, ctx) {
            Some((f, n)) => if 1 <= n <= s.len() {
                match rpb_yokozuna_schema_get_resp_apply(m, f, ctx) {
                    Some(m2) => rpb_yokozuna_schema_get_resp_merge(m2, s.skip(n as int), ctx),
                    None => None,
                }
            } else {
                None
            },
            None => None,
        }
    }
}

/// A `RpbYokozunaSchemaGetResp` read from `s`, or `None` where `s` is malformed: its
/// fields merged into an empty message with the full allowance of 100.
pub open spec fn rpb_yokozuna_schema_get_resp_decode(s: Seq<u8>) -> Option<RpbYokozunaSchemaGetRespView> {
    rpb_yokozuna_schema_get_resp_merge(rpb_yokozuna_schema_get_resp_empty(), s, 100)
}

impl RpbYokozunaSchemaGetResp {
    /// A `RpbYokozunaSchemaGetResp` with no field set.
    pub fn empty() -> (r: RpbYokozunaSchemaGetResp)
        ensures
            r@ == rpb_yokozuna_schema_get_resp_empty(),
    {
        let r = RpbYokozunaSchemaGetResp {
            schema: RpbYokozunaSchema::empty(),
        };
        r
    }

    /// Reads the fields of `buf` into this message, as `prost` merges a
    /// `RpbYokozunaSchemaGetResp`.
    pub fn merge_from(&mut self, buf: &[u8], ctx: u32) -> (res: Result<(), DecodeError>)
        ensures
            match res {
                Ok(()) => rpb_yokozuna_schema_get_resp_merge(old(self)@, buf@, ctx as nat) == Some(final(self)@),
                Err(_) => rpb_yokozuna_schema_get_resp_merge(old(self)@, buf@, ctx as nat) is None,
            },
        decreases ctx, buf@.len(),
    {
        let mut rest = buf;
        while rest.len() > 0
            invariant
                rpb_yokozuna_schema_get_resp_merge(old(self)@, buf@, ctx as nat) == rpb_yokozuna_schema_get_resp_merge(self@, rest@, ctx as nat),
                rest@.len() <= buf@.len(),
            decreases rest@.len(),
        {
            let (f, r2) = match read_field(rest, ctx) {
                Ok(p) => p,
                Err(e) => return Err(e),
            };
            proof {
                lemma_field_parse_len(rest@, ctx as nat);
            }
            match self.apply_field(f, ctx) {
                Ok(()) => {},
                Err(e) => return Err(e),
            }
            rest = r2;
        }
        Ok(())
    }

    /// Reads a `RpbYokozunaSchemaGetResp` from `buf`, with the full allowance of 100.
    pub fn decode(buf: &[u8]) -> (res: Result<RpbYokozunaSchemaGetResp, DecodeError>)
        ensures
            match res {
                Ok(m) => rpb_yokozuna_schema_get_resp_decode(buf@) == Some(m@),
                Err(_) => rpb_yokozuna_schema_get_resp_decode(buf@) is None,
            },
    {
        let mut m = RpbYokozunaSchemaGetResp::empty();
        match m.merge_from(buf, 100) {
            Ok(()) => Ok(m),
            Err(e) => Err(e),
        }
    }

    fn apply_field(&mut self, f: Field, ctx: u32) -> (res: Result<(), DecodeError>)
        ensures
            match res {
                Ok(()) => rpb_yokozuna_schema_get_resp_apply(old(self)@, f@, ctx as nat) == Some(final(self)@),
                Err(_) => rpb_yokozuna_schema_get_resp_apply(old(self)@, f@, ctx as nat) is None,
            },
        decreases ctx, 0nat,
    {
        let Field { tag, data } = f;
        if tag == 1 {
            match data {
                FieldData::Bytes(b) => {
                    if ctx == 0 {
                        return Err(decode_error("recursion limit reached"));
                    }
                    self.schema.merge_from(b.as_slice(), ctx - 1)
                },
                _ => Err(decode_error("invalid wire type")),
            }
        } else if ctx == 0 {
            Err(decode_error("recursion limit reached"))
        } else {
            Ok(())
        }
    }

}

proof fn lemma_rpb_search_doc_rep_fields(m0: RpbSearchDocView, s: Seq<RpbPairView>, rest: Seq<u8>, ctx: nat)
    requires
        (rep_bytes_piece(1, s.map_values(|v: RpbPairView| rpb_pair_bytes(v))) + rest).len() < 0x1_0000_0000_0000_0000,
        ctx >= 1,
    ensures
        rpb_search_doc_merge(m0, rep_bytes_piece(1, s.map_values(|v: RpbPairView| rpb_pair_bytes(v))) + rest, ctx) == rpb_search_doc_merge((RpbSearchDocView { fields: m0.fields + s, ..m0 }), rest, ctx),
    decreases s.len(),
{
    let bs = s.map_values(|v: RpbPairView| rpb_pair_bytes(v));
    if s.len() == 0 {
        assert(rep_bytes_piece(1, bs) + rest =~= rest);
        assert(m0.fields + s =~= m0.fields);
        assert((RpbSearchDocView { fields: m0.fields + s, ..m0 }) == m0);
    } else {
        let s2 = s.drop_last();
        let x = s.last();
        let f = bytes_field(1, rpb_pair_bytes(x));
        let bs2 = s2.map_values(|v: RpbPairView| rpb_pair_bytes(v));
        assert(bs.drop_last() =~= bs2);
        assert(rep_bytes_piece(1, bs) + rest =~= rep_bytes_piece(1, bs2) + (field_bytes(f) + rest));
        lemma_rpb_search_doc_rep_fields(m0, s2, field_bytes(f) + rest, ctx);
        let m1 = RpbSearchDocView { fields: m0.fields + s2, ..m0 };
        let tail = field_bytes(f) + rest;
        lemma_field_roundtrip(f, rest, ctx);
        lemma_field_parse_len(tail, ctx);
        assert(tail.skip(field_bytes(f).len() as int) =~= rest);
        lemma_rpb_pair_reads_back(x, (ctx - 1) as nat);
        assert(m1.fields.push(x) =~= m0.fields + s);
        assert(rpb_search_doc_apply(m1, f, ctx) == Some(RpbSearchDocView { fields: m0.fields + s, ..m0 }));
    }
}

/// A `RpbSearchDoc` written to bytes merges back into an empty one as itself,
/// with an allowance of at least 1.
#[verifier::rlimit(50)]
pub proof fn lemma_rpb_search_doc_reads_back(m: RpbSearchDocView, ctx: nat)
    requires
        rpb_search_doc_bytes(m).len() < 0x1_0000_0000_0000_0000,
        ctx >= 1,
    ensures
        rpb_search_doc_merge(rpb_search_doc_empty(), rpb_search_doc_bytes(m), ctx) == Some(m),
{
    let p0 = rep_bytes_piece(1, m.fields.map_values(|s: RpbPairView| rpb_pair_bytes(s)));
    let s1 = Seq::<u8>::empty();
    let s0 = p0 + s1;
    assert(rpb_search_doc_bytes(m) == s0) by {
        assert(p0 + s1 =~= p0);
    }
    let m0 = rpb_search_doc_empty();
    let m1 = RpbSearchDocView { fields: m.fields, ..m0 };
    lemma_rpb_search_doc_rep_fields(m0, m.fields, s1, ctx);
    assert(m0.fields + m.fields =~= m.fields);
    assert(m1 == m);
}

/// A `RpbSearchDoc` written to bytes reads back as itself.
pub proof fn lemma_rpb_search_doc_roundtrip(m: RpbSearchDocView)
    requires
        rpb_search_doc_bytes(m).len() < 0x1_0000_0000_0000_0000,
    ensures
        rpb_search_doc_decode(rpb_search_doc_bytes(m)) == Some(m),
{
    lemma_rpb_search_doc_reads_back(m, 100);
}

proof fn lemma_rpb_search_query_req_rep_fl(m0: RpbSearchQueryReqView, s: Seq<Seq<u8>>, rest: Seq<u8>, ctx: nat)
    requires
        (rep_bytes_piece(9, s) + rest).len() < 0x1_0000_0000_0000_0000,
        ctx >= 0,
    ensures
        rpb_search_query_req_merge(m0, rep_bytes_piece(9, s) + rest, ctx) == rpb_search_query_req_merge((RpbSearchQueryReqView { fl: m0.fl + s, ..m0 }), rest, ctx),
    decreases s.len(),
{
    let bs = s;
    if s.len() == 0 {
        assert(rep_bytes_piece(9, bs) + rest =~= rest);
        assert(m0.fl + s =~= m0.fl);
        assert((RpbSearchQueryReqView { fl: m0.fl + s, ..m0 }) == m0);
    } else {
        let s2 = s.drop_last();
        let x = s.last();
        let f = bytes_field(9, x);
        let bs2 = s2;
        assert(bs.drop_last() =~= bs2);
        assert(rep_bytes_piece(9, bs) + rest =~= rep_bytes_piece(9, bs2) + (field_bytes(f) + rest));
        lemma_rpb_search_query_req_rep_fl(m0, s2, field_bytes(f) + rest, ctx);
        let m1 = RpbSearchQueryReqView { fl: m0.fl + s2, ..m0 };
        let tail = field_bytes(f) + rest;
        lemma_field_roundtrip(f, rest, ctx);
        lemma_field_parse_len(tail, ctx);
        assert(tail.skip(field_bytes(f).len() as int) =~= rest);
        assert(m1.fl.push(x) =~= m0.fl + s);
        assert(rpb_search_query_req_apply(m1, f, ctx) == Some(RpbSearchQueryReqView { fl: m0.fl + s, ..m0 }));
    }
}

proof fn lemma_rpb_search_query_req_field_q(cur: RpbSearchQueryReqView, v: Seq<u8>, rest: Seq<u8>, ctx: nat)
    requires
        cur.q == rpb_search_query_req_empty().q,
        (bytes_piece(1, v) + rest).len() < 0x1_0000_0000_0000_0000,
        ctx >= 0,
    ensures
        rpb_search_query_req_merge(cur, bytes_piece(1, v) + rest, ctx) == rpb_search_query_req_merge((RpbSearchQueryReqView { q: v, ..cur }), rest, ctx),
{
    let f = bytes_field(1, v);
    let s = bytes_piece(1, v) + rest;
    lemma_field_roundtrip(f, rest, ctx);
    lemma_field_parse_len(s, ctx);
    assert(s.skip(field_bytes(f).len() as int) =~= rest);
    assert(rpb_search_query_req_apply(cur, f, ctx) == Some(RpbSearchQueryReqView { q: v, ..cur }));
}

proof fn lemma_rpb_search_query_req_field_index(cur: RpbSearchQueryReqView, v: Seq<u8>, rest: Seq<u8>, ctx: nat)
    requires
        cur.index == rpb_search_query_req_empty().index,
        (bytes_piece(2, v) + rest).len() < 0x1_0000_0000_0000_0000,
        ctx >= 0,
    ensures
        rpb_search_query_req_merge(cur, bytes_piece(2, v) + rest, ctx) == rpb_search_query_req_merge((RpbSearchQueryReqView { index: v, ..cur }), rest, ctx),
{
    let f = bytes_field(2, v);
    let s = bytes_piece(2, v) + rest;
    lemma_field_roundtrip(f, rest, ctx);
    lemma_field_parse_len(s, ctx);
    assert(s.skip(field_bytes(f).len() as int) =~= rest);
    assert(rpb_search_query_req_apply(cur, f, ctx) == Some(RpbSearchQueryReqView { index: v, ..cur }));
}

proof fn lemma_rpb_search_query_req_field_rows(cur: RpbSearchQueryReqView, v: Option<u32>, rest: Seq<u8>, ctx: nat)
    requires
        cur.rows == rpb_search_query_req_empty().rows,
        (opt_varint_piece(3, opt_u32_code(v)) + rest).len() < 0x1_0000_0000_0000_0000,
        ctx >= 0,
    ensures
        rpb_search_query_req_merge(cur, opt_varint_piece(3, opt_u32_code(v)) + rest, ctx) == rpb_search_query_req_merge((RpbSearchQueryReqView { rows: v, ..cur }), rest, ctx),
{
    if v is Some {
        let f = varint_field(3, v->0 as u64);
        let s = opt_varint_piece(3, opt_u32_code(v)) + rest;
        lemma_field_roundtrip(f, rest, ctx);
        lemma_field_parse_len(s, ctx);
        assert(s.skip(field_bytes(f).len() as int) =~= rest);
        assert(rpb_search_query_req_apply(cur, f, ctx) == Some(RpbSearchQueryReqView { rows: v, ..cur }));
    } else {
        assert(opt_varint_piece(3, opt_u32_code(v)) + rest =~= rest);
        assert((RpbSearchQueryReqView { rows: v, ..cur }) == cur);
    }
}

proof fn lemma_rpb_search_query_req_field_start(cur: RpbSearchQueryReqView, v: Option<u32>, rest: Seq<u8>, ctx: nat)
    requires
        cur.start == rpb_search_query_req_empty().start,
        (opt_varint_piece(4, opt_u32_code(v)) + rest).len() < 0x1_0000_0000_0000_0000,
        ctx >= 0,
    ensures
        rpb_search_query_req_merge(cur, opt_varint_piece(4, opt_u32_code(v)) + rest, ctx) == rpb_search_query_req_merge((RpbSearchQueryReqView { start: v, ..cur }), rest, ctx),
{
    if v is Some {
        let f = varint_field(4, v->0 as u64);
        let s = opt_varint_piece(4, opt_u32_code(v)) + rest;
        lemma_field_roundtrip(f, rest, ctx);
        lemma_field_parse_len(s, ctx);
        assert(s.skip(field_bytes(f).len() as int) =~= rest);
        assert(rpb_search_query_req_apply(cur, f, ctx) == Some(RpbSearchQueryReqView { start: v, ..cur }));
    } else {
        assert(opt_varint_piece(4, opt_u32_code(v)) + rest =~= rest);
        assert((RpbSearchQueryReqView { start: v, ..cur }) == cur);
    }
}

proof fn lemma_rpb_search_query_req_field_sort(cur: RpbSearchQueryReqView, v: Option<Seq<u8>>, rest: Seq<u8>, ctx: nat)
    requires
        cur.sort == rpb_search_query_req_empty().sort,
        (opt_bytes_piece(5, v) + rest).len() < 0x1_0000_0000_0000_0000,
        ctx >= 0,
    ensures
        rpb_search_query_req_merge(cur, opt_bytes_piece(5, v) + rest, ctx) == rpb_search_query_req_merge((RpbSearchQueryReqView { sort: v, ..cur }), rest, ctx),
{
    if v is Some {
        let f = bytes_field(5, v->0);
        let s = opt_bytes_piece(5, v) + rest;
        lemma_field_roundtrip(f, rest, ctx);
        lemma_field_parse_len(s, ctx);
        assert(s.skip(field_bytes(f).len() as int) =~= rest);
        assert(rpb_search_query_req_apply(cur, f, ctx) == Some(RpbSearchQueryReqView { sort: v, ..cur }));
    } else {
        assert(opt_bytes_piece(5, v) + rest =~= rest);
        assert((RpbSearchQueryReqView { sort: v, ..cur }) == cur);
    }
}

proof fn lemma_rpb_search_query_req_field_filter(cur: RpbSearchQueryReqView, v: Option<Seq<u8>>, rest: Seq<u8>, ctx: nat)
    requires
        cur.filter == rpb_search_query_req_empty().filter,
        (opt_bytes_piece(6, v) + rest).len() < 0x1_0000_0000_0000_0000,
        ctx >= 0,
    ensures
        rpb_search_query_req_merge(cur, opt_bytes_piece(6, v) + rest, ctx) == rpb_search_query_req_merge((RpbSearchQueryReqView { filter: v, ..cur }), rest, ctx),
{
    if v is Some {
        let f = bytes_field(6, v->0);
        let s = opt_bytes_piece(6, v) + rest;
        lemma_field_roundtrip(f, rest, ctx);
        lemma_field_parse_len(s, ctx);
        assert(s.skip(field_bytes(f).len() as int) =~= rest);
        assert(rpb_search_query_req_apply(cur, f, ctx) == Some(RpbSearchQueryReqView { filter: v, ..cur }));
    } else {
        assert(opt_bytes_piece(6, v) + rest =~= rest);
        assert((RpbSearchQueryReqView { filter: v, ..cur }) == cur);
    }
}

proof fn lemma_rpb_search_query_req_field_df(cur: RpbSearchQueryReqView, v: Option<Seq<u8>>, rest: Seq<u8>, ctx: nat)
    requires
        cur.df == rpb_search_query_req_empty().df,
        (opt_bytes_piece(7, v) + rest).len() < 0x1_0000_0000_0000_0000,
        ctx >= 0,
    ensures
        rpb_search_query_req_merge(cur, opt_bytes_piece(7, v) + rest, ctx) == rpb_search_query_req_merge((RpbSearchQueryReqView { df: v, ..cur }), rest, ctx),
{
    if v is Some {
        let f = bytes_field(7, v->0);
        let s = opt_bytes_piece(7, v) + rest;
        lemma_field_roundtrip(f, rest, ctx);
        lemma_field_parse_len(s, ctx);
        assert(s.skip(field_bytes(f).len() as int) =~= rest);
        assert(rpb_search_query_req_apply(cur, f, ctx) == Some(RpbSearchQueryReqView { df: v, ..cur }));
    } else {
        assert(opt_bytes_piece(7, v) + rest =~= rest);
        assert((RpbSearchQueryReqView { df: v, ..cur }) == cur);
    }
}

proof fn lemma_rpb_search_query_req_field_op(cur: RpbSearchQueryReqView, v: Option<Seq<u8>>, rest: Seq<u8>, ctx: nat)
    requires
        cur.op == rpb_search_query_req_empty().op,
        (opt_bytes_piece(8, v) + rest).len() < 0x1_0000_0000_0000_0000,
        ctx >= 0,
    ensures
        rpb_search_query_req_merge(cur, opt_bytes_piece(8, v) + rest, ctx) == rpb_search_query_req_merge((RpbSearchQueryReqView { op: v, ..cur }), rest, ctx),
{
    if v is Some {
        let f = bytes_field(8, v->0);
        let s = opt_bytes_piece(8, v) + rest;
        lemma_field_roundtrip(f, rest, ctx);
        lemma_field_parse_len(s, ctx);
        assert(s.skip(field_bytes(f).len() as int) =~= rest);
        assert(rpb_search_query_req_apply(cur, f, ctx) == Some(RpbSearchQueryReqView { op: v, ..cur }));
    } else {
        assert(opt_bytes_piece(8, v) + rest =~= rest);
        assert((RpbSearchQueryReqView { op: v, ..cur }) == cur);
    }
}

proof fn lemma_rpb_search_query_req_field_presort(cur: RpbSearchQueryReqView, v: Option<Seq<u8>>, rest: Seq<u8>, ctx: nat)
    requires
        cur.presort == rpb_search_query_req_empty().presort,
        (opt_bytes_piece(10, v) + rest).len() < 0x1_0000_0000_0000_0000,
        ctx >= 0,
    ensures
        rpb_search_query_req_merge(cur, opt_bytes_piece(10, v) + rest, ctx) == rpb_search_query_req_merge((RpbSearchQueryReqView { presort: v, ..cur }), rest, ctx),
{
    if v is Some {
        let f = bytes_field(10, v->0);
        let s = opt_bytes_piece(10, v) + rest;
        lemma_field_roundtrip(f, rest, ctx);
        lemma_field_parse_len(s, ctx);
        assert(s.skip(field_bytes(f).len() as int) =~= rest);
        assert(rpb_search_query_req_apply(cur, f, ctx) == Some(RpbSearchQueryReqView { presort: v, ..cur }));
    } else {
        assert(opt_bytes_piece(10, v) + rest =~= rest);
        assert((RpbSearchQueryReqView { presort: v, ..cur }) == cur);
    }
}

/// A `RpbSearchQueryReq` written to bytes merges back into an empty one as itself,
/// with an allowance of at least 0.
#[verifier::rlimit(50)]
pub proof fn lemma_rpb_search_query_req_reads_back(m: RpbSearchQueryReqView, ctx: nat)
    requires
        rpb_search_query_req_bytes(m).len() < 0x1_0000_0000_0000_0000,
        ctx >= 0,
    ensures
        rpb_search_query_req_merge(rpb_search_query_req_empty(), rpb_search_query_req_bytes(m), ctx) == Some(m),
{
    let p0 = bytes_piece(1, m.q);
    let p1 = bytes_piece(2, m.index);
    let p2 = opt_varint_piece(3, opt_u32_code(m.rows));
    let p3 = opt_varint_piece(4, opt_u32_code(m.start));
    let p4 = opt_bytes_piece(5, m.sort);
    let p5 = opt_bytes_piece(6, m.filter);
    let p6 = opt_bytes_piece(7, m.df);
    let p7 = opt_bytes_piece(8, m.op);
    let p8 = rep_bytes_piece(9, m.fl);
    let p9 = opt_bytes_piece(10, m.presort);
    let s10 = Seq::<u8>::empty();
    let s9 = p9 + s10;
    let s8 = p8 + s9;
    let s7 = p7 + s8;
    let s6 = p6 + s7;
    let s5 = p5 + s6;
    let s4 = p4 + s5;
    let s3 = p3 + s4;
    let s2 = p2 + s3;
    let s1 = p1 + s2;
    let s0 = p0 + s1;
    assert(rpb_search_query_req_bytes(m) == s0) by {
        lemma_concat_assoc(p0, p1, s2);
        lemma_concat_assoc(p0 + p1, p2, s3);
        lemma_concat_assoc(p0 + p1 + p2, p3, s4);
        lemma_concat_assoc(p0 + p1 + p2 + p3, p4, s5);
        lemma_concat_assoc(p0 + p1 + p2 + p3 + p4, p5, s6);
        lemma_concat_assoc(p0 + p1 + p2 + p3 + p4 + p5, p6, s7);
        lemma_concat_assoc(p0 + p1 + p2 + p3 + p4 + p5 + p6, p7, s8);
        lemma_concat_assoc(p0 + p1 + p2 + p3 + p4 + p5 + p6 + p7, p8, s9);
        lemma_concat_assoc(p0 + p1 + p2 + p3 + p4 + p5 + p6 + p7 + p8, p9, s10);
        assert(p0 + p1 + p2 + p3 + p4 + p5 + p6 + p7 + p8 + p9 + s10 =~= p0 + p1 + p2 + p3 + p4 + p5 + p6 + p7 + p8 + p9);
    }
    let m0 = rpb_search_query_req_empty();
    let m1 = RpbSearchQueryReqView { q: m.q, ..m0 };
    let m2 = RpbSearchQueryReqView { index: m.index, ..m1 };
    let m3 = RpbSearchQueryReqView { rows: m.rows, ..m2 };
    let m4 = RpbSearchQueryReqView { start: m.start, ..m3 };
    let m5 = RpbSearchQueryReqView { sort: m.sort, ..m4 };
    let m6 = RpbSearchQueryReqView { filter: m.filter, ..m5 };
    let m7 = RpbSearchQueryReqView { df: m.df, ..m6 };
    let m8 = RpbSearchQueryReqView { op: m.op, ..m7 };
    let m9 = RpbSearchQueryReqView { fl: m.fl, ..m8 };
    let m10 = RpbSearchQueryReqView { presort: m.presort, ..m9 };
    lemma_rpb_search_query_req_field_q(m0, m.q, s1, ctx);
    lemma_rpb_search_query_req_field_index(m1, m.index, s2, ctx);
    lemma_rpb_search_query_req_field_rows(m2, m.rows, s3, ctx);
    lemma_rpb_search_query_req_field_start(m3, m.start, s4, ctx);
    lemma_rpb_search_query_req_field_sort(m4, m.sort, s5, ctx);
    lemma_rpb_search_query_req_field_filter(m5, m.filter, s6, ctx);
    lemma_rpb_search_query_req_field_df(m6, m.df, s7, ctx);
    lemma_rpb_search_query_req_field_op(m7, m.op, s8, ctx);
    lemma_rpb_search_query_req_rep_fl(m8, m.fl, s9, ctx);
    assert(m8.fl + m.fl =~= m.fl);
    lemma_rpb_search_query_req_field_presort(m9, m.presort, s10, ctx);
    assert(m10 == m);
}

/// A `RpbSearchQueryReq` written to bytes reads back as itself.
pub proof fn lemma_rpb_search_query_req_roundtrip(m: RpbSearchQueryReqView)
    requires
        rpb_search_query_req_bytes(m).len() < 0x1_0000_0000_0000_0000,
    ensures
        rpb_search_query_req_decode(rpb_search_query_req_bytes(m)) == Some(m),
{
    lemma_rpb_search_query_req_reads_back(m, 100);
}

proof fn lemma_rpb_search_query_resp_rep_docs(m0: RpbSearchQueryRespView, s: Seq<RpbSearchDocView>, rest: Seq<u8>, ctx: nat)
    requires
        (rep_bytes_piece(1, s.map_values(|v: RpbSearchDocView| rpb_search_doc_bytes(v))) + rest).len() < 0x1_0000_0000_0000_0000,
        ctx >= 2,
    ensures
        rpb_search_query_resp_merge(m0, rep_bytes_piece(1, s.map_values(|v: RpbSearchDocView| rpb_search_doc_bytes(v))) + rest, ctx) == rpb_search_query_resp_merge((RpbSearchQueryRespView { docs: m0.docs + s, ..m0 }), rest, ctx),
    decreases s.len(),
{
    let bs = s.map_values(|v: RpbSearchDocView| rpb_search_doc_bytes(v));
    if s.len() == 0 {
        assert(rep_bytes_piece(1, bs) + rest =~= rest);
        assert(m0.docs + s =~= m0.docs);
        assert((RpbSearchQueryRespView { docs: m0.docs + s, ..m0 }) == m0);
    } else {
        let s2 = s.drop_last();
        let x = s.last();
        let f = bytes_field(1, rpb_search_doc_bytes(x));
        let bs2 = s2.map_values(|v: RpbSearchDocView| rpb_search_doc_bytes(v));
        assert(bs.drop_last() =~= bs2);
        assert(rep_bytes_piece(1, bs) + rest =~= rep_bytes_piece(1, bs2) + (field_bytes(f) + rest));
        lemma_rpb_search_query_resp_rep_docs(m0, s2, field_bytes(f) + rest, ctx);
        let m1 = RpbSearchQueryRespView { docs: m0.docs + s2, ..m0 };
        let tail = field_bytes(f) + rest;
        lemma_field_roundtrip(f, rest, ctx);
        lemma_field_parse_len(tail, ctx);
        assert(tail.skip(field_bytes(f).len() as int) =~= rest);
        lemma_rpb_search_doc_reads_back(x, (ctx - 1) as nat);
        assert(m1.docs.push(x) =~= m0.docs + s);
        assert(rpb_search_query_resp_apply(m1, f, ctx) == Some(RpbSearchQueryRespView { docs: m0.docs + s, ..m0 }));
    }
}

proof fn lemma_rpb_search_query_resp_field_max_score(cur: RpbSearchQueryRespView, v: Option<u32>, rest: Seq<u8>, ctx: nat)
    requires
        cur.max_score == rpb_search_query_resp_empty().max_score,
        (opt_fixed32_piece(2, v) + rest).len() < 0x1_0000_0000_0000_0000,
        ctx >= 2,
    ensures
        rpb_search_query_resp_merge(cur, opt_fixed32_piece(2, v) + rest, ctx) == rpb_search_query_resp_merge((RpbSearchQueryRespView { max_score: v, ..cur }), rest, ctx),
{
    if v is Some {
        let f = fixed32_field(2, v->0);
        let s = opt_fixed32_piece(2, v) + rest;
        lemma_field_roundtrip(f, rest, ctx);
        lemma_field_parse_len(s, ctx);
        assert(s.skip(field_bytes(f).len() as int) =~= rest);
        assert(rpb_search_query_resp_apply(cur, f, ctx) == Some(RpbSearchQueryRespView { max_score: v, ..cur }));
    } else {
        assert(opt_fixed32_piece(2, v) + rest =~= rest);
        assert((RpbSearchQueryRespView { max_score: v, ..cur }) == cur);
    }
}

proof fn lemma_rpb_search_query_resp_field_num_found(cur: RpbSearchQueryRespView, v: Option<u32>, rest: Seq<u8>, ctx: nat)
    requires
        cur.num_found == rpb_search_query_resp_empty().num_found,
        (opt_varint_piece(3, opt_u32_code(v)) + rest).len() < 0x1_0000_0000_0000_0000,
        ctx >= 2,
    ensures
        rpb_search_query_resp_merge(cur, opt_varint_piece(3, opt_u32_code(v)) + rest, ctx) == rpb_search_query_resp_merge((RpbSearchQueryRespView { num_found: v, ..cur }), rest, ctx),
{
    if v is Some {
        let f = varint_field(3, v->0 as u64);
        let s = opt_varint_piece(3, opt_u32_code(v)) + rest;
        lemma_field_roundtrip(f, rest, ctx);
        lemma_field_parse_len(s, ctx);
        assert(s.skip(field_bytes(f).len() as int) =~= rest);
        assert(rpb_search_query_resp_apply(cur, f, ctx) == Some(RpbSearchQueryRespView { num_found: v, ..cur }));
    } else {
        assert(opt_varint_piece(3, opt_u32_code(v)) + rest =~= rest);
        assert((RpbSearchQueryRespView { num_found: v, ..cur }) == cur);
    }
}

/// A `RpbSearchQueryResp` written to bytes merges back into an empty one as itself,
/// with an allowance of at least 2.
#[verifier::rlimit(50)]
pub proof fn lemma_rpb_search_query_resp_reads_back(m: RpbSearchQueryRespView, ctx: nat)
    requires
        rpb_search_query_resp_bytes(m).len() < 0x1_0000_0000_0000_0000,
        ctx >= 2,
    ensures
        rpb_search_query_resp_merge(rpb_search_query_resp_empty(), rpb_search_query_resp_bytes(m), ctx) == Some(m),
{
    let p0 = rep_bytes_piece(1, m.docs.map_values(|s: RpbSearchDocView| rpb_search_doc_bytes(s)));
    let p1 = opt_fixed32_piece(2, m.max_score);
    let p2 = opt_varint_piece(3, opt_u32_code(m.num_found));
    let s3 = Seq::<u8>::empty();
    let s2 = p2 + s3;
    let s1 = p1 + s2;
    let s0 = p0 + s1;
    assert(rpb_search_query_resp_bytes(m) == s0) by {
        lemma_concat_assoc(p0, p1, s2);
        lemma_concat_assoc(p0 + p1, p2, s3);
        assert(p0 + p1 + p2 + s3 =~= p0 + p1 + p2);
    }
    let m0 = rpb_search_query_resp_empty();
    let m1 = RpbSearchQueryRespView { docs: m.docs, ..m0 };
    let m2 = RpbSearchQueryRespView { max_score: m.max_score, ..m1 };
    let m3 = RpbSearchQueryRespView { num_found: m.num_found, ..m2 };
    lemma_rpb_search_query_resp_rep_docs(m0, m.docs, s1, ctx);
    assert(m0.docs + m.docs =~= m.docs);
    lemma_rpb_search_query_resp_field_max_score(m1, m.max_score, s2, ctx);
    lemma_rpb_search_query_resp_field_num_found(m2, m.num_found, s3, ctx);
    assert(m3 == m);
}

/// A `RpbSearchQueryResp` written to bytes reads back as itself.
pub proof fn lemma_rpb_search_query_resp_roundtrip(m: RpbSearchQueryRespView)
    requires
        rpb_search_query_resp_bytes(m).len() < 0x1_0000_0000_0000_0000,
    ensures
        rpb_search_query_resp_decode(rpb_search_query_resp_bytes(m)) == Some(m),
{
    lemma_rpb_search_query_resp_reads_back(m, 100);
}

proof fn lemma_rpb_yokozuna_index_field_name(cur: RpbYokozunaIndexView, v: Seq<u8>, rest: Seq<u8>, ctx: nat)
    requires
        cur.name == rpb_yokozuna_index_empty().name,
        (bytes_piece(1, v) + rest).len() < 0x1_0000_0000_0000_0000,
        ctx >= 0,
    ensures
        rpb_yokozuna_index_merge(cur, bytes_piece(1, v) + rest, ctx) == rpb_yokozuna_index_merge((RpbYokozunaIndexView { name: v, ..cur }), rest, ctx),
{
    let f = bytes_field(1, v);
    let s = bytes_piece(1, v) + rest;
    lemma_field_roundtrip(f, rest, ctx);
    lemma_field_parse_len(s, ctx);
    assert(s.skip(field_bytes(f).len() as int) =~= rest);
    assert(rpb_yokozuna_index_apply(cur, f, ctx) == Some(RpbYokozunaIndexView { name: v, ..cur }));
}

proof fn lemma_rpb_yokozuna_index_field_schema(cur: RpbYokozunaIndexView, v: Option<Seq<u8>>, rest: Seq<u8>, ctx: nat)
    requires
        cur.schema == rpb_yokozuna_index_empty().schema,
        (opt_bytes_piece(2, v) + rest).len() < 0x1_0000_0000_0000_0000,
        ctx >= 0,
    ensures
        rpb_yokozuna_index_merge(cur, opt_bytes_piece(2, v) + rest, ctx) == rpb_yokozuna_index_merge((RpbYokozunaIndexView { schema: v, ..cur }), rest, ctx),
{
    if v is Some {
        let f = bytes_field(2, v->0);
        let s = opt_bytes_piece(2, v) + rest;
        lemma_field_roundtrip(f, rest, ctx);
        lemma_field_parse_len(s, ctx);
        assert(s.skip(field_bytes(f).len() as int) =~= rest);
        assert(rpb_yokozuna_index_apply(cur, f, ctx) == Some(RpbYokozunaIndexView { schema: v, ..cur }));
    } else {
        assert(opt_bytes_piece(2, v) + rest =~= rest);
        assert((RpbYokozunaIndexView { schema: v, ..cur }) == cur);
    }
}

proof fn lemma_rpb_yokozuna_index_field_n_val(cur: RpbYokozunaIndexView, v: Option<u32>, rest: Seq<u8>, ctx: nat)
    requires
        cur.n_val == rpb_yokozuna_index_empty().n_val,
        (opt_varint_piece(3, opt_u32_code(v)) + rest).len() < 0x1_0000_0000_0000_0000,
        ctx >= 0,
    ensures
        rpb_yokozuna_index_merge(cur, opt_varint_piece(3, opt_u32_code(v)) + rest, ctx) == rpb_yokozuna_index_merge((RpbYokozunaIndexView { n_val: v, ..cur }), rest, ctx),
{
    if v is Some {
        let f = varint_field(3, v->0 as u64);
        let s = opt_varint_piece(3, opt_u32_code(v)) + rest;
        lemma_field_roundtrip(f, rest, ctx);
        lemma_field_parse_len(s, ctx);
        assert(s.skip(field_bytes(f).len() as int) =~= rest);
        assert(rpb_yokozuna_index_apply(cur, f, ctx) == Some(RpbYokozunaIndexView { n_val: v, ..cur }));
    } else {
        assert(opt_varint_piece(3, opt_u32_code(v)) + rest =~= rest);
        assert((RpbYokozunaIndexView { n_val: v, ..cur }) == cur);
    }
}

/// A `RpbYokozunaIndex` written to bytes merges back into an empty one as itself,
/// with an allowance of at least 0.
#[verifier::rlimit(50)]
pub proof fn lemma_rpb_yokozuna_index_reads_back(m: RpbYokozunaIndexView, ctx: nat)
    requires
        rpb_yokozuna_index_bytes(m).len() < 0x1_0000_0000_0000_0000,
        ctx >= 0,
    ensures
        rpb_yokozuna_index_merge(rpb_yokozuna_index_empty(), rpb_yokozuna_index_bytes(m), ctx) == Some(m),
{
    let p0 = bytes_piece(1, m.name);
    let p1 = opt_bytes_piece(2, m.schema);
    let p2 = opt_varint_piece(3, opt_u32_code(m.n_val));
    let s3 = Seq::<u8>::empty();
    let s2 = p2 + s3;
    let s1 = p1 + s2;
    let s0 = p0 + s1;
    assert(rpb_yokozuna_index_bytes(m) == s0) by {
        lemma_concat_assoc(p0, p1, s2);
        lemma_concat_assoc(p0 + p1, p2, s3);
        assert(p0 + p1 + p2 + s3 =~= p0 + p1 + p2);
    }
    let m0 = rpb_yokozuna_index_empty();
    let m1 = RpbYokozunaIndexView { name: m.name, ..m0 };
    let m2 = RpbYokozunaIndexView { schema: m.schema, ..m1 };
    let m3 = RpbYokozunaIndexView { n_val: m.n_val, ..m2 };
    lemma_rpb_yokozuna_index_field_name(m0, m.name, s1, ctx);
    lemma_rpb_yokozuna_index_field_schema(m1, m.schema, s2, ctx);
    lemma_rpb_yokozuna_index_field_n_val(m2, m.n_val, s3, ctx);
    assert(m3 == m);
}

/// A `RpbYokozunaIndex` written to bytes reads back as itself.
pub proof fn lemma_rpb_yokozuna_index_roundtrip(m: RpbYokozunaIndexView)
    requires
        rpb_yokozuna_index_bytes(m).len() < 0x1_0000_0000_0000_0000,
    ensures
        rpb_yokozuna_index_decode(rpb_yokozuna_index_bytes(m)) == Some(m),
{
    lemma_rpb_yokozuna_index_reads_back(m, 100);
}

proof fn lemma_rpb_yokozuna_index_get_req_field_name(cur: RpbYokozunaIndexGetReqView, v: Option<Seq<u8>>, rest: Seq<u8>, ctx: nat)
    requires
        cur.name == rpb_yokozuna_index_get_req_empty().name,
        (opt_bytes_piece(1, v) + rest).len() < 0x1_0000_0000_0000_0000,
        ctx >= 0,
    ensures
        rpb_yokozuna_index_get_req_merge(cur, opt_bytes_piece(1, v) + rest, ctx) == rpb_yokozuna_index_get_req_merge((RpbYokozunaIndexGetReqView { name: v, ..cur }), rest, ctx),
{
    if v is Some {
        let f = bytes_field(1, v->0);
        let s = opt_bytes_piece(1, v) + rest;
        lemma_field_roundtrip(f, rest, ctx);
        lemma_field_parse_len(s, ctx);
        assert(s.skip(field_bytes(f).len() as int) =~= rest);
        assert(rpb_yokozuna_index_get_req_apply(cur, f, ctx) == Some(RpbYokozunaIndexGetReqView { name: v, ..cur }));
    } else {
        assert(opt_bytes_piece(1, v) + rest =~= rest);
        assert((RpbYokozunaIndexGetReqView { name: v, ..cur }) == cur);
    }
}

/// A `RpbYokozunaIndexGetReq` written to bytes merges back into an empty one as itself,
/// with an allowance of at least 0.
#[verifier::rlimit(50)]
pub proof fn lemma_rpb_yokozuna_index_get_req_reads_back(m: RpbYokozunaIndexGetReqView, ctx: nat)
    requires
        rpb_yokozuna_index_get_req_bytes(m).len() < 0x1_0000_0000_0000_0000,
        ctx >= 0,
    ensures
        rpb_yokozuna_index_get_req_merge(rpb_yokozuna_index_get_req_empty(), rpb_yokozuna_index_get_req_bytes(m), ctx) == Some(m),
{
    let p0 = opt_bytes_piece(1, m.name);
    let s1 = Seq::<u8>::empty();
    let s0 = p0 + s1;
    assert(rpb_yokozuna_index_get_req_bytes(m) == s0) by {
        assert(p0 + s1 =~= p0);
    }
    let m0 = rpb_yokozuna_index_get_req_empty();
    let m1 = RpbYokozunaIndexGetReqView { name: m.name, ..m0 };
    lemma_rpb_yokozuna_index_get_req_field_name(m0, m.name, s1, ctx);
    assert(m1 == m);
}

/// A `RpbYokozunaIndexGetReq` written to bytes reads back as itself.
pub proof fn lemma_rpb_yokozuna_index_get_req_roundtrip(m: RpbYokozunaIndexGetReqView)
    requires
        rpb_yokozuna_index_get_req_bytes(m).len() < 0x1_0000_0000_0000_0000,
    ensures
        rpb_yokozuna_index_get_req_decode(rpb_yokozuna_index_get_req_bytes(m)) == Some(m),
{
    lemma_rpb_yokozuna_index_get_req_reads_back(m, 100);
}

proof fn lemma_rpb_yokozuna_index_get_resp_rep_index(m0: RpbYokozunaIndexGetRespView, s: Seq<RpbYokozunaIndexView>, rest: Seq<u8>, ctx: nat)
    requires
        (rep_bytes_piece(1, s.map_values(|v: RpbYokozunaIndexView| rpb_yokozuna_index_bytes(v))) + rest).len() < 0x1_0000_0000_0000_0000,
        ctx >= 1,
    ensures
        rpb_yokozuna_index_get_resp_merge(m0, rep_bytes_piece(1, s.map_values(|v: RpbYokozunaIndexView| rpb_yokozuna_index_bytes(v))) + rest, ctx) == rpb_yokozuna_index_get_resp_merge((RpbYokozunaIndexGetRespView { index: m0.index + s, ..m0 }), rest, ctx),
    decreases s.len(),
{
    let bs = s.map_values(|v: RpbYokozunaIndexView| rpb_yokozuna_index_bytes(v));
    if s.len() == 0 {
        assert(rep_bytes_piece(1, bs) + rest =~= rest);
        assert(m0.index + s =~= m0.index);
        assert((RpbYokozunaIndexGetRespView { index: m0.index + s, ..m0 }) == m0);
    } else {
        let s2 = s.drop_last();
        let x = s.last();
        let f = bytes_field(1, rpb_yokozuna_index_bytes(x));
        let bs2 = s2.map_values(|v: RpbYokozunaIndexView| rpb_yokozuna_index_bytes(v));
        assert(bs.drop_last() =~= bs2);
        assert(rep_bytes_piece(1, bs) + rest =~= rep_bytes_piece(1, bs2) + (field_bytes(f) + rest));
        lemma_rpb_yokozuna_index_get_resp_rep_index(m0, s2, field_bytes(f) + rest, ctx);
        let m1 = RpbYokozunaIndexGetRespView { index: m0.index + s2, ..m0 };
        let tail = field_bytes(f) + rest;
        lemma_field_roundtrip(f, rest, ctx);
        lemma_field_parse_len(tail, ctx);
        assert(tail.skip(field_bytes(f).len() as int) =~= rest);
        lemma_rpb_yokozuna_index_reads_back(x, (ctx - 1) as nat);
        assert(m1.index.push(x) =~= m0.index + s);
        assert(rpb_yokozuna_index_get_resp_apply(m1, f, ctx) == Some(RpbYokozunaIndexGetRespView { index: m0.index + s, ..m0 }));
    }
}

/// A `RpbYokozunaIndexGetResp` written to bytes merges back into an empty one as itself,
/// with an allowance of at least 1.
#[verifier::rlimit(50)]
pub proof fn lemma_rpb_yokozuna_index_get_resp_reads_back(m: RpbYokozunaIndexGetRespView, ctx: nat)
    requires
        rpb_yokozuna_index_get_resp_bytes(m).len() < 0x1_0000_0000_0000_0000,
        ctx >= 1,
    ensures
        rpb_yokozuna_index_get_resp_merge(rpb_yokozuna_index_get_resp_empty(), rpb_yokozuna_index_get_resp_bytes(m), ctx) == Some(m),
{
    let p0 = rep_bytes_piece(1, m.index.map_values(|s: RpbYokozunaIndexView| rpb_yokozuna_index_bytes(s)));
    let s1 = Seq::<u8>::empty();
    let s0 = p0 + s1;
    assert(rpb_yokozuna_index_get_resp_bytes(m) == s0) by {
        assert(p0 + s1 =~= p0);
    }
    let m0 = rpb_yokozuna_index_get_resp_empty();
    let m1 = RpbYokozunaIndexGetRespView { index: m.index, ..m0 };
    lemma_rpb_yokozuna_index_get_resp_rep_index(m0, m.index, s1, ctx);
    assert(m0.index + m.index =~= m.index);
    assert(m1 == m);
}

/// A `RpbYokozunaIndexGetResp` written to bytes reads back as itself.
pub proof fn lemma_rpb_yokozuna_index_get_resp_roundtrip(m: RpbYokozunaIndexGetRespView)
    requires
        rpb_yokozuna_index_get_resp_bytes(m).len() < 0x1_0000_0000_0000_0000,
    ensures
        rpb_yokozuna_index_get_resp_decode(rpb_yokozuna_index_get_resp_bytes(m)) == Some(m),
{
    lemma_rpb_yokozuna_index_get_resp_reads_back(m, 100);
}

#[verifier::rlimit(50)]
proof fn lemma_rpb_yokozuna_index_put_req_field_index(cur: RpbYokozunaIndexPutReqView, v: RpbYokozunaIndexView, rest: Seq<u8>, ctx: nat)
    requires
        cur.index == rpb_yokozuna_index_put_req_empty().index,
        (bytes_piece(1, rpb_yokozuna_index_bytes(v)) + rest).len() < 0x1_0000_0000_0000_0000,
        ctx >= 1,
    ensures
        rpb_yokozuna_index_put_req_merge(cur, bytes_piece(1, rpb_yokozuna_index_bytes(v)) + rest, ctx) == rpb_yokozuna_index_put_req_merge((RpbYokozunaIndexPutReqView { index: v, ..cur }), rest, ctx),
{
    let f = bytes_field(1, rpb_yokozuna_index_bytes(v));
    let s = bytes_piece(1, rpb_yokozuna_index_bytes(v)) + rest;
    lemma_field_roundtrip(f, rest, ctx);
    lemma_field_parse_len(s, ctx);
    assert(s.skip(field_bytes(f).len() as int) =~= rest);
    lemma_rpb_yokozuna_index_reads_back(v, (ctx - 1) as nat);
    assert(rpb_yokozuna_index_put_req_apply(cur, f, ctx) == Some(RpbYokozunaIndexPutReqView { index: v, ..cur }));
}

proof fn lemma_rpb_yokozuna_index_put_req_field_timeout(cur: RpbYokozunaIndexPutReqView, v: Option<u32>, rest: Seq<u8>, ctx: nat)
    requires
        cur.timeout == rpb_yokozuna_index_put_req_empty().timeout,
        (opt_varint_piece(2, opt_u32_code(v)) + rest).len() < 0x1_0000_0000_0000_0000,
        ctx >= 1,
    ensures
        rpb_yokozuna_index_put_req_merge(cur, opt_varint_piece(2, opt_u32_code(v)) + rest, ctx) == rpb_yokozuna_index_put_req_merge((RpbYokozunaIndexPutReqView { timeout: v, ..cur }), rest, ctx),
{
    if v is Some {
        let f = varint_field(2, v->0 as u64);
        let s = opt_varint_piece(2, opt_u32_code(v)) + rest;
        lemma_field_roundtrip(f, rest, ctx);
        lemma_field_parse_len(s, ctx);
        assert(s.skip(field_bytes(f).len() as int) =~= rest);
        assert(rpb_yokozuna_index_put_req_apply(cur, f, ctx) == Some(RpbYokozunaIndexPutReqView { timeout: v, ..cur }));
    } else {
        assert(opt_varint_piece(2, opt_u32_code(v)) + rest =~= rest);
        assert((RpbYokozunaIndexPutReqView { timeout: v, ..cur }) == cur);
    }
}

/// A `RpbYokozunaIndexPutReq` written to bytes merges back into an empty one as itself,
/// with an allowance of at least 1.
#[verifier::rlimit(50)]
pub proof fn lemma_rpb_yokozuna_index_put_req_reads_back(m: RpbYokozunaIndexPutReqView, ctx: nat)
    requires
        rpb_yokozuna_index_put_req_bytes(m).len() < 0x1_0000_0000_0000_0000,
        ctx >= 1,
    ensures
        rpb_yokozuna_index_put_req_merge(rpb_yokozuna_index_put_req_empty(), rpb_yokozuna_index_put_req_bytes(m), ctx) == Some(m),
{
    let p0 = bytes_piece(1, rpb_yokozuna_index_bytes(m.index));
    let p1 = opt_varint_piece(2, opt_u32_code(m.timeout));
    let s2 = Seq::<u8>::empty();
    let s1 = p1 + s2;
    let s0 = p0 + s1;
    assert(rpb_yokozuna_index_put_req_bytes(m) == s0) by {
        lemma_concat_assoc(p0, p1, s2);
        assert(p0 + p1 + s2 =~= p0 + p1);
    }
    let m0 = rpb_yokozuna_index_put_req_empty();
    let m1 = RpbYokozunaIndexPutReqView { index: m.index, ..m0 };
    let m2 = RpbYokozunaIndexPutReqView { timeout: m.timeout, ..m1 };
    lemma_rpb_yokozuna_index_put_req_field_index(m0, m.index, s1, ctx);
    lemma_rpb_yokozuna_index_put_req_field_timeout(m1, m.timeout, s2, ctx);
    assert(m2 == m);
}

/// A `RpbYokozunaIndexPutReq` written to bytes reads back as itself.
pub proof fn lemma_rpb_yokozuna_index_put_req_roundtrip(m: RpbYokozunaIndexPutReqView)
    requires
        rpb_yokozuna_index_put_req_bytes(m).len() < 0x1_0000_0000_0000_0000,
    ensures
        rpb_yokozuna_index_put_req_decode(rpb_yokozuna_index_put_req_bytes(m)) == Some(m),
{
    lemma_rpb_yokozuna_index_put_req_reads_back(m, 100);
}

proof fn lemma_rpb_yokozuna_index_delete_req_field_name(cur: RpbYokozunaIndexDeleteReqView, v: Seq<u8>, rest: Seq<u8>, ctx: nat)
    requires
        cur.name == rpb_yokozuna_index_delete_req_empty().name,
        (bytes_piece(1, v) + rest).len() < 0x1_0000_0000_0000_0000,
        ctx >= 0,
    ensures
        rpb_yokozuna_index_delete_req_merge(cur, bytes_piece(1, v) + rest, ctx) == rpb_yokozuna_index_delete_req_merge((RpbYokozunaIndexDeleteReqView { name: v, ..cur }), rest, ctx),
{
    let f = bytes_field(1, v);
    let s = bytes_piece(1, v) + rest;
    lemma_field_roundtrip(f, rest, ctx);
    lemma_field_parse_len(s, ctx);
    assert(s.skip(field_bytes(f).len() as int) =~= rest);
    assert(rpb_yokozuna_index_delete_req_apply(cur, f, ctx) == Some(RpbYokozunaIndexDeleteReqView { name: v, ..cur }));
}

/// A `RpbYokozunaIndexDeleteReq` written to bytes merges back into an empty one as itself,
/// with an allowance of at least 0.
#[verifier::rlimit(50)]
pub proof fn lemma_rpb_yokozuna_index_delete_req_reads_back(m: RpbYokozunaIndexDeleteReqView, ctx: nat)
    requires
        rpb_yokozuna_index_delete_req_bytes(m).len() < 0x1_0000_0000_0000_0000,
        ctx >= 0,
    ensures
        rpb_yokozuna_index_delete_req_merge(rpb_yokozuna_index_delete_req_empty(), rpb_yokozuna_index_delete_req_bytes(m), ctx) == Some(m),
{
    let p0 = bytes_piece(1, m.name);
    let s1 = Seq::<u8>::empty();
    let s0 = p0 + s1;
    assert(rpb_yokozuna_index_delete_req_bytes(m) == s0) by {
        assert(p0 + s1 =~= p0);
    }
    let m0 = rpb_yokozuna_index_delete_req_empty();
    let m1 = RpbYokozunaIndexDeleteReqView { name: m.name, ..m0 };
    lemma_rpb_yokozuna_index_delete_req_field_name(m0, m.name, s1, ctx);
    assert(m1 == m);
}

/// A `RpbYokozunaIndexDeleteReq` written to bytes reads back as itself.
pub proof fn lemma_rpb_yokozuna_index_delete_req_roundtrip(m: RpbYokozunaIndexDeleteReqView)
    requires
        rpb_yokozuna_index_delete_req_bytes(m).len() < 0x1_0000_0000_0000_0000,
    ensures
        rpb_yokozuna_index_delete_req_decode(rpb_yokozuna_index_delete_req_bytes(m)) == Some(m),
{
    lemma_rpb_yokozuna_index_delete_req_reads_back(m, 100);
}

proof fn lemma_rpb_yokozuna_schema_field_name(cur: RpbYokozunaSchemaView, v: Seq<u8>, rest: Seq<u8>, ctx: nat)
    requires
        cur.name == rpb_yokozuna_schema_empty().name,
        (bytes_piece(1, v) + rest).len() < 0x1_0000_0000_0000_0000,
        ctx >= 0,
    ensures
        rpb_yokozuna_schema_merge(cur, bytes_piece(1, v) + rest, ctx) == rpb_yokozuna_schema_merge((RpbYokozunaSchemaView { name: v, ..cur }), rest, ctx),
{
    let f = bytes_field(1, v);
    let s = bytes_piece(1, v) + rest;
    lemma_field_roundtrip(f, rest, ctx);
    lemma_field_parse_len(s, ctx);
    assert(s.skip(field_bytes(f).len() as int) =~= rest);
    assert(rpb_yokozuna_schema_apply(cur, f, ctx) == Some(RpbYokozunaSchemaView { name: v, ..cur }));
}

proof fn lemma_rpb_yokozuna_schema_field_content(cur: RpbYokozunaSchemaView, v: Option<Seq<u8>>, rest: Seq<u8>, ctx: nat)
    requires
        cur.content == rpb_yokozuna_schema_empty().content,
        (opt_bytes_piece(2, v) + rest).len() < 0x1_0000_0000_0000_0000,
        ctx >= 0,
    ensures
        rpb_yokozuna_schema_merge(cur, opt_bytes_piece(2, v) + rest, ctx) == rpb_yokozuna_schema_merge((RpbYokozunaSchemaView { content: v, ..cur }), rest, ctx),
{
    if v is Some {
        let f = bytes_field(2, v->0);
        let s = opt_bytes_piece(2, v) + rest;
        lemma_field_roundtrip(f, rest, ctx);
        lemma_field_parse_len(s, ctx);
        assert(s.skip(field_bytes(f).len() as int) =~= rest);
        assert(rpb_yokozuna_schema_apply(cur, f, ctx) == Some(RpbYokozunaSchemaView { content: v, ..cur }));
    } else {
        assert(opt_bytes_piece(2, v) + rest =~= rest);
        assert((RpbYokozunaSchemaView { content: v, ..cur }) == cur);
    }
}

/// A `RpbYokozunaSchema` written to bytes merges back into an empty one as itself,
/// with an allowance of at least 0.
#[verifier::rlimit(50)]
pub proof fn lemma_rpb_yokozuna_schema_reads_back(m: RpbYokozunaSchemaView, ctx: nat)
    requires
        rpb_yokozuna_schema_bytes(m).len() < 0x1_0000_0000_0000_0000,
        ctx >= 0,
    ensures
        rpb_yokozuna_schema_merge(rpb_yokozuna_schema_empty(), rpb_yokozuna_schema_bytes(m), ctx) == Some(m),
{
    let p0 = bytes_piece(1, m.name);
    let p1 = opt_bytes_piece(2, m.content);
    let s2 = Seq::<u8>::empty();
    let s1 = p1 + s2;
    let s0 = p0 + s1;
    assert(rpb_yokozuna_schema_bytes(m) == s0) by {
        lemma_concat_assoc(p0, p1, s2);
        assert(p0 + p1 + s2 =~= p0 + p1);
    }
    let m0 = rpb_yokozuna_schema_empty();
    let m1 = RpbYokozunaSchemaView { name: m.name, ..m0 };
    let m2 = RpbYokozunaSchemaView { content: m.content, ..m1 };
    lemma_rpb_yokozuna_schema_field_name(m0, m.name, s1, ctx);
    lemma_rpb_yokozuna_schema_field_content(m1, m.content, s2, ctx);
    assert(m2 == m);
}

/// A `RpbYokozunaSchema` written to bytes reads back as itself.
pub proof fn lemma_rpb_yokozuna_schema_roundtrip(m: RpbYokozunaSchemaView)
    requires
        rpb_yokozuna_schema_bytes(m).len() < 0x1_0000_0000_0000_0000,
    ensures
        rpb_yokozuna_schema_decode(rpb_yokozuna_schema_bytes(m)) == Some(m),
{
    lemma_rpb_yokozuna_schema_reads_back(m, 100);
}

#[verifier::rlimit(50)]
proof fn lemma_rpb_yokozuna_schema_put_req_field_schema(cur: RpbYokozunaSchemaPutReqView, v: RpbYokozunaSchemaView, rest: Seq<u8>, ctx: nat)
    requires
        cur.schema == rpb_yokozuna_schema_put_req_empty().schema,
        (bytes_piece(1, rpb_yokozuna_schema_bytes(v)) + rest).len() < 0x1_0000_0000_0000_0000,
        ctx >= 1,
    ensures
        rpb_yokozuna_schema_put_req_merge(cur, bytes_piece(1, rpb_yokozuna_schema_bytes(v)) + rest, ctx) == rpb_yokozuna_schema_put_req_merge((RpbYokozunaSchemaPutReqView { schema: v, ..cur }), rest, ctx),
{
    let f = bytes_field(1, rpb_yokozuna_schema_bytes(v));
    let s = bytes_piece(1, rpb_yokozuna_schema_bytes(v)) + rest;
    lemma_field_roundtrip(f, rest, ctx);
    lemma_field_parse_len(s, ctx);
    assert(s.skip(field_bytes(f).len() as int) =~= rest);
    lemma_rpb_yokozuna_schema_reads_back(v, (ctx - 1) as nat);
    assert(rpb_yokozuna_schema_put_req_apply(cur, f, ctx) == Some(RpbYokozunaSchemaPutReqView { schema: v, ..cur }));
}

/// A `RpbYokozunaSchemaPutReq` written to bytes merges back into an empty one as itself,
/// with an allowance of at least 1.
#[verifier::rlimit(50)]
pub proof fn lemma_rpb_yokozuna_schema_put_req_reads_back(m: RpbYokozunaSchemaPutReqView, ctx: nat)
    requires
        rpb_yokozuna_schema_put_req_bytes(m).len() < 0x1_0000_0000_0000_0000,
        ctx >= 1,
    ensures
        rpb_yokozuna_schema_put_req_merge(rpb_yokozuna_schema_put_req_empty(), rpb_yokozuna_schema_put_req_bytes(m), ctx) == Some(m),
{
    let p0 = bytes_piece(1, rpb_yokozuna_schema_bytes(m.schema));
    let s1 = Seq::<u8>::empty();
    let s0 = p0 + s1;
    assert(rpb_yokozuna_schema_put_req_bytes(m) == s0) by {
        assert(p0 + s1 =~= p0);
    }
    let m0 = rpb_yokozuna_schema_put_req_empty();
    let m1 = RpbYokozunaSchemaPutReqView { schema: m.schema, ..m0 };
    lemma_rpb_yokozuna_schema_put_req_field_schema(m0, m.schema, s1, ctx);
    assert(m1 == m);
}

/// A `RpbYokozunaSchemaPutReq` written to bytes reads back as itself.
pub proof fn lemma_rpb_yokozuna_schema_put_req_roundtrip(m: RpbYokozunaSchemaPutReqView)
    requires
        rpb_yokozuna_schema_put_req_bytes(m).len() < 0x1_0000_0000_0000_0000,
    ensures
        rpb_yokozuna_schema_put_req_decode(rpb_yokozuna_schema_put_req_bytes(m)) == Some(m),
{
    lemma_rpb_yokozuna_schema_put_req_reads_back(m, 100);
}

proof fn lemma_rpb_yokozuna_schema_get_req_field_name(cur: RpbYokozunaSchemaGetReqView, v: Seq<u8>, rest: Seq<u8>, ctx: nat)
    requires
        cur.name == rpb_yokozuna_schema_get_req_empty().name,
        (bytes_piece(1, v) + rest).len() < 0x1_0000_0000_0000_0000,
        ctx >= 0,
    ensures
        rpb_yokozuna_schema_get_req_merge(cur, bytes_piece(1, v) + rest, ctx) == rpb_yokozuna_schema_get_req_merge((RpbYokozunaSchemaGetReqView { name: v, ..cur }), rest, ctx),
{
    let f = bytes_field(1, v);
    let s = bytes_piece(1, v) + rest;
    lemma_field_roundtrip(f, rest, ctx);
    lemma_field_parse_len(s, ctx);
    assert(s.skip(field_bytes(f).len() as int) =~= rest);
    assert(rpb_yokozuna_schema_get_req_apply(cur, f, ctx) == Some(RpbYokozunaSchemaGetReqView { name: v, ..cur }));
}

/// A `RpbYokozunaSchemaGetReq` written to bytes merges back into an empty one as itself,
/// with an allowance of at least 0.
#[verifier::rlimit(50)]
pub proof fn lemma_rpb_yokozuna_schema_get_req_reads_back(m: RpbYokozunaSchemaGetReqView, ctx: nat)
    requires
        rpb_yokozuna_schema_get_req_bytes(m).len() < 0x1_0000_0000_0000_0000,
        ctx >= 0,
    ensures
        rpb_yokozuna_schema_get_req_merge(rpb_yokozuna_schema_get_req_empty(), rpb_yokozuna_schema_get_req_bytes(m), ctx) == Some(m),
{
    let p0 = bytes_piece(1, m.name);
    let s1 = Seq::<u8>::empty();
    let s0 = p0 + s1;
    assert(rpb_yokozuna_schema_get_req_bytes(m) == s0) by {
        assert(p0 + s1 =~= p0);
    }
    let m0 = rpb_yokozuna_schema_get_req_empty();
    let m1 = RpbYokozunaSchemaGetReqView { name: m.name, ..m0 };
    lemma_rpb_yokozuna_schema_get_req_field_name(m0, m.name, s1, ctx);
    assert(m1 == m);
}

/// A `RpbYokozunaSchemaGetReq` written to bytes reads back as itself.
pub proof fn lemma_rpb_yokozuna_schema_get_req_roundtrip(m: RpbYokozunaSchemaGetReqView)
    requires
        rpb_yokozuna_schema_get_req_bytes(m).len() < 0x1_0000_0000_0000_0000,
    ensures
        rpb_yokozuna_schema_get_req_decode(rpb_yokozuna_schema_get_req_bytes(m)) == Some(m),
{
    lemma_rpb_yokozuna_schema_get_req_reads_back(m, 100);
}

#[verifier::rlimit(50)]
proof fn lemma_rpb_yokozuna_schema_get_resp_field_schema(cur: RpbYokozunaSchemaGetRespView, v: RpbYokozunaSchemaView, rest: Seq<u8>, ctx: nat)
    requires
        cur.schema == rpb_yokozuna_schema_get_resp_empty().schema,
        (bytes_piece(1, rpb_yokozuna_schema_bytes(v)) + rest).len() < 0x1_0000_0000_0000_0000,
        ctx >= 1,
    ensures
        rpb_yokozuna_schema_get_resp_merge(cur, bytes_piece(1, rpb_yokozuna_schema_bytes(v)) + rest, ctx) == rpb_yokozuna_schema_get_resp_merge((RpbYokozunaSchemaGetRespView { schema: v, ..cur }), rest, ctx),
{
    let f = bytes_field(1, rpb_yokozuna_schema_bytes(v));
    let s = bytes_piece(1, rpb_yokozuna_schema_bytes(v)) + rest;
    lemma_field_roundtrip(f, rest, ctx);
    lemma_field_parse_len(s, ctx);
    assert(s.skip(field_bytes(f).len() as int) =~= rest);
    lemma_rpb_yokozuna_schema_reads_back(v, (ctx - 1) as nat);
    assert(rpb_yokozuna_schema_get_resp_apply(cur, f, ctx) == Some(RpbYokozunaSchemaGetRespView { schema: v, ..cur }));
}

/// A `RpbYokozunaSchemaGetResp` written to bytes merges back into an empty one as itself,
/// with an allowance of at least 1.
#[verifier::rlimit(50)]
pub proof fn lemma_rpb_yokozuna_schema_get_resp_reads_back(m: RpbYokozunaSchemaGetRespView, ctx: nat)
    requires
        rpb_yokozuna_schema_get_resp_bytes(m).len() < 0x1_0000_0000_0000_0000,
        ctx >= 1,
    ensures
        rpb_yokozuna_schema_get_resp_merge(rpb_yokozuna_schema_get_resp_empty(), rpb_yokozuna_schema_get_resp_bytes(m), ctx) == Some(m),
{
    let p0 = bytes_piece(1, rpb_yokozuna_schema_bytes(m.schema));
    let s1 = Seq::<u8>::empty();
    let s0 = p0 + s1;
    assert(rpb_yokozuna_schema_get_resp_bytes(m) == s0) by {
        assert(p0 + s1 =~= p0);
    }
    let m0 = rpb_yokozuna_schema_get_resp_empty();
    let m1 = RpbYokozunaSchemaGetRespView { schema: m.schema, ..m0 };
    lemma_rpb_yokozuna_schema_get_resp_field_schema(m0, m.schema, s1, ctx);
    assert(m1 == m);
}

/// A `RpbYokozunaSchemaGetResp` written to bytes reads back as itself.
pub proof fn lemma_rpb_yokozuna_schema_get_resp_roundtrip(m: RpbYokozunaSchemaGetRespView)
    requires
        rpb_yokozuna_schema_get_resp_bytes(m).len() < 0x1_0000_0000_0000_0000,
    ensures
        rpb_yokozuna_schema_get_resp_decode(rpb_yokozuna_schema_get_resp_bytes(m)) == Some(m),
{
    lemma_rpb_yokozuna_schema_get_resp_reads_back(m, 100);
}

} // verus!
