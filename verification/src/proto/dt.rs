//! Messages of the data type API.
use crate::wire::{
    Field, FieldData, RawData, RawField, WireMessage, bool_code, bytes_field, bytes_piece,
    bytes_seq_view, decode_error, field_bytes, field_parse, i32_code, i32_from_code, i32_of_code,
    lemma_concat_assoc, lemma_field_parse_len, lemma_field_roundtrip, lemma_i32_code_roundtrip,
    opt_bool_code, opt_bytes_piece, opt_bytes_view, opt_u32_code, opt_varint_piece,
    put_bytes_field, put_opt_bool, put_opt_u32, read_field, u32_of_code, varint_field,
    varint_piece, zigzag_from_code, zigzag_of_code,
};
use prost::DecodeError;
use vstd::prelude::*;

verus! {

/// The name and type of a field of a map.
#[derive(Clone, Debug)]
pub struct MapField {
    pub name: Vec<u8>,
    pub field_type: i32,
}

/// The value of a `MapField`.
pub struct MapFieldView {
    pub name: Seq<u8>,
    pub field_type: i32,
}

impl View for MapField {
    type V = MapFieldView;

    open spec fn view(&self) -> MapFieldView {
        MapFieldView {
            name: self.name@,
            field_type: self.field_type,
        }
    }
}

/// A `MapField` with no field set.
pub open spec fn map_field_empty() -> MapFieldView {
    MapFieldView {
        name: Seq::empty(),
        field_type: 1,
    }
}

/// The bytes of a `MapField`: its fields in the order of their tags.
pub open spec fn map_field_bytes(m: MapFieldView) -> Seq<u8> {
    bytes_piece(1, m.name)
        + varint_piece(2, i32_code(m.field_type))
}

/// What one field read from the wire does to a `MapField`: `None` where
/// the field has a known tag and a payload of another wire type, or a
/// nested message that does not read. Fields of unknown tags are skipped.
/// `ctx` is what is left of the nesting allowance of 100 messages: a
/// nested message, or an unknown field, needs some of it.
pub open spec fn map_field_apply(m: MapFieldView, f: RawField, ctx: nat) -> Option<MapFieldView>
    decreases ctx, 0nat,
{
    if f.tag == 1 {
        match f.data {
            RawData::Bytes(b) => Some(MapFieldView { name: b, ..m }),
            _ => None,
        }
    } else if f.tag == 2 {
        match f.data {
            RawData::Varint(v) => Some(MapFieldView { field_type: i32_of_code(v), ..m }),
            _ => None,
        }
    } else if ctx == 0 {
        None
    } else {
        Some(m)
    }
}

/// Reads the fields of `s` into `m`, one after the other, as `prost`
/// merges a `MapField`.
pub open spec fn map_field_merge(m: MapFieldView, s: Seq<u8>, ctx: nat) -> Option<MapFieldView>
    decreases ctx, s.len(),
{
    if s.len() == 0 {
        Some(m)
    } else {
        match field_parse(s, ctx) {
            Some((f, n)) => if 1 <= n <= s.len() {
                match map_field_apply(m, f, ctx) {
                    Some(m2) => map_field_merge(m2, s.skip(n as int), ctx),
                    None => None,
                }
            } else {
                None
            },
            None => None,
        }
    }
}

/// A `MapField` read from `s`, or `None` where `s` is malformed: its
/// fields merged into an empty message with the full allowance of 100.
pub open spec fn map_field_decode(s: Seq<u8>) -> Option<MapFieldView> {
    map_field_merge(map_field_empty(), s, 100)
}

impl MapField {
    /// A `MapField` with no field set.
    pub fn empty() -> (r: MapField)
        ensures
            r@ == map_field_empty(),
    {
        let r = MapField {
            name: Vec::new(),
            field_type: 1,
        };
        r
    }

    /// Reads the fields of `buf` into this message, as `prost` merges a
    /// `MapField`.
    pub fn merge_from(&mut self, buf: &[u8], ctx: u32) -> (res: Result<(), DecodeError>)
        ensures
            match res {
                Ok(()) => map_field_merge(old(self)@, buf@, ctx as nat) == Some(final(self)@),
                Err(_) => map_field_merge(old(self)@, buf@, ctx as nat) is None,
            },
        decreases ctx, buf@.len(),
    {
        let mut rest = buf;
        while rest.len() > 0
            invariant
                map_field_merge(old(self)@, buf@, ctx as nat) == map_field_merge(self@, rest@, ctx as nat),
                rest@.len() <= buf@.len(),
            decreases rest@.len(),
        {
            let (f, r2) = match read_field(rest, ctx) {
                Ok(p) => p,
                Err(e) => return Err(e),
            };
            proof {
                lemma_field_parse_len(rest@, ctx as nat);
            }
            match self.apply_field(f, ctx) {
                Ok(()) => {},
                Err(e) => return Err(e),
            }
            rest = r2;
        }
        Ok(())
    }

    /// Reads a `MapField` from `buf`, with the full allowance of 100.
    pub fn decode(buf: &[u8]) -> (res: Result<MapField, DecodeError>)
        ensures
            match res {
                Ok(m) => map_field_decode(buf@) == Some(m@),
                Err(_) => map_field_decode(buf@) is None,
            },
    {
        let mut m = MapField::empty();
        match m.merge_from(buf, 100) {
            Ok(()) => Ok(m),
            Err(e) => Err(e),
        }
    }

    fn apply_field(&mut self, f: Field, ctx: u32) -> (res: Result<(), DecodeError>)
        ensures
            match res {
                Ok(()) => map_field_apply(old(self)@, f@, ctx as nat) == Some(final(self)@),
                Err(_) => map_field_apply(old(self)@, f@, ctx as nat) is None,
            },
        decreases ctx, 0nat,
    {
        let Field { tag, data } = f;
        if tag == 1 {
            match data {
                FieldData::Bytes(b) => {
                    self.name = b;
                    Ok(())
                },
                _ => Err(decode_error("invalid wire type")),
            }
        } else if tag == 2 {
            match data {
                FieldData::Varint(v) => {
                    self.field_type = i32_from_code(v);
                    Ok(())
                },
                _ => Err(decode_error("invalid wire type")),
            }
        } else if ctx == 0 {
            Err(decode_error("recursion limit reached"))
        } else {
            Ok(())
        }
    }

}

/// A field of a map with its value.
#[derive(Debug)]
pub struct MapEntry {
    pub field: MapField,
    pub counter_value: Option<i64>,
    pub set_value: Vec<Vec<u8>>,
    pub register_value: Option<Vec<u8>>,
    pub flag_value: Option<bool>,
    pub map_value: Vec<MapEntry>,
}

/// The value of a `MapEntry`.
pub struct MapEntryView {
    pub field: MapFieldView,
    pub counter_value: Option<i64>,
    pub set_value: Seq<Seq<u8>>,
    pub register_value: Option<Seq<u8>>,
    pub flag_value: Option<bool>,
    pub map_value: Seq<MapEntryView>,
}

/// The value of a `MapEntry`.
pub open spec fn map_entry_view(e: MapEntry) -> MapEntryView
    decreases e,
{
    MapEntryView {
        field: e.field@,
        counter_value: e.counter_value,
        set_value: bytes_seq_view(e.set_value@),
        register_value: opt_bytes_view(e.register_value),
        flag_value: e.flag_value,
        map_value: map_entries_view(e.map_value@),
    }
}

/// The values of a sequence of `MapEntry`.
pub open spec fn map_entries_view(s: Seq<MapEntry>) -> Seq<MapEntryView>
    decreases s,
{
    if s.len() == 0 {
        Seq::empty()
    } else {
        map_entries_view(s.subrange(0, s.len() - 1)).push(map_entry_view(s[s.len() - 1]))
    }
}

impl View for MapEntry {
    type V = MapEntryView;

    open spec fn view(&self) -> MapEntryView {
        map_entry_view(*self)
    }
}

/// A `MapEntry` with no field set.
pub open spec fn map_entry_empty() -> MapEntryView {
    MapEntryView {
        field: map_field_empty(),
        counter_value: None,
        set_value: Seq::empty(),
        register_value: None,
        flag_value: None,
        map_value: Seq::empty(),
    }
}

/// What one field read from the wire does to a `MapEntry`: `None` where
/// the field has a known tag and a payload of another wire type, or a
/// nested message that does not read. Fields of unknown tags are skipped.
/// `ctx` is what is left of the nesting allowance of 100 messages: a
/// nested message, or an unknown field, needs some of it.
pub open spec fn map_entry_apply(m: MapEntryView, f: RawField, ctx: nat) -> Option<MapEntryView>
    decreases ctx, 0nat,
{
    if f.tag == 1 {
        match f.data {
            RawData::Bytes(b) => if ctx == 0 {
                None
            } else {
                match map_field_merge(m.field, b, (ctx - 1) as nat) {
                    Some(s) => Some(MapEntryView { field: s, ..m }),
                    None => None,
                }
            },
            _ => None,
        }
    } else if f.tag == 2 {
        match f.data {
            RawData::Varint(v) => Some(MapEntryView { counter_value: Some(zigzag_of_code(v)), ..m }),
            _ => None,
        }
    } else if f.tag == 3 {
        match f.data {
            RawData::Bytes(b) => Some(MapEntryView { set_value: m.set_value.push(b), ..m }),
            _ => None,
        }
    } else if f.tag == 4 {
        match f.data {
            RawData::Bytes(b) => Some(MapEntryView { register_value: Some(b), ..m }),
            _ => None,
        }
    } else if f.tag == 5 {
        match f.data {
            RawData::Varint(v) => Some(MapEntryView { flag_value: Some(v != 0), ..m }),
            _ => None,
        }
    } else if f.tag == 6 {
        match f.data {
            RawData::Bytes(b) => if ctx == 0 {
                None
            } else {
                match map_entry_merge(map_entry_empty(), b, (ctx - 1) as nat) {
                    Some(s) => Some(MapEntryView { map_value: m.map_value.push(s), ..m }),
                    None => None,
                }
            },
            _ => None,
        }
    } else if ctx == 0 {
        None
    } else {
        Some(m)
    }
}

/// Reads the fields of `s` into `m`, one after the other, as `prost`
/// merges a `MapEntry`.
pub open spec fn map_entry_merge(m: MapEntryView, s: Seq<u8>, ctx: nat) -> Option<MapEntryView>
    decreases ctx, s.len(),
{
    if s.len() == 0 {
        Some(m)
    } else {
        match field_parse(s, ctx) {
            Some((f, n)) => if 1 <= n <= s.len() {
                match map_entry_apply(m, f, ctx) {
                    Some(m2) => map_entry_merge(m2, s.skip(n as int), ctx),
                    None => None,
                }
            } else {
                None
            },
            None => None,
        }
    }
}

impl MapEntry {
    /// A `MapEntry` with no field set.
    pub fn empty() -> (r: MapEntry)
        ensures
            r@ == map_entry_empty(),
    {
        let r = MapEntry {
            field: MapField::empty(),
            counter_value: None,
            set_value: Vec::new(),
            register_value: None,
            flag_value: None,
            map_value: Vec::new(),
        };
        proof {
            assert(bytes_seq_view(r.set_value@) =~= Seq::<Seq<u8>>::empty());
            assert(map_entries_view(r.map_value@) =~= Seq::<MapEntryView>::empty());
        }
        r
    }

    /// Reads the fields of `buf` into this message, as `prost` merges a
    /// `MapEntry`.
    pub fn merge_from(&mut self, buf: &[u8], ctx: u32) -> (res: Result<(), DecodeError>)
        ensures
            match res {
                Ok(()) => map_entry_merge(old(self)@, buf@, ctx as nat) == Some(final(self)@),
                Err(_) => map_entry_merge(old(self)@, buf@, ctx as nat) is None,
            },
        decreases ctx, buf@.len(),
    {
        let mut rest = buf;
        while rest.len() > 0
            invariant
                map_entry_merge(old(self)@, buf@, ctx as nat) == map_entry_merge(self@, rest@, ctx as nat),
                rest@.len() <= buf@.len(),
            decreases rest@.len(),
        {
            let (f, r2) = match read_field(rest, ctx) {
                Ok(p) => p,
                Err(e) => return Err(e),
            };
            proof {
                lemma_field_parse_len(rest@, ctx as nat);
            }
            match self.apply_field(f, ctx) {
                Ok(()) => {},
                Err(e) => return Err(e),
            }
            rest = r2;
        }
        Ok(())
    }

    fn apply_field(&mut self, f: Field, ctx: u32) -> (res: Result<(), DecodeError>)
        ensures
            match res {
                Ok(()) => map_entry_apply(old(self)@, f@, ctx as nat) == Some(final(self)@),
                Err(_) => map_entry_apply(old(self)@, f@, ctx as nat) is None,
            },
        decreases ctx, 0nat,
    {
        let Field { tag, data } = f;
        if tag == 1 {
            match data {
                FieldData::Bytes(b) => {
                    if ctx == 0 {
                        return Err(decode_error("recursion limit reached"));
                    }
                    self.field.merge_from(b.as_slice(), ctx - 1)
                },
                _ => Err(decode_error("invalid wire type")),
            }
        } else if tag == 2 {
            match data {
                FieldData::Varint(v) => {
                    self.counter_value = Some(zigzag_from_code(v));
                    Ok(())
                },
                _ => Err(decode_error("invalid wire type")),
            }
        } else if tag == 3 {
            match data {
                FieldData::Bytes(b) => {
                    let ghost prev = bytes_seq_view(self.set_value@);
                    let ghost bv = b@;
                    self.set_value.push(b);
                    proof {
                        assert(bytes_seq_view(self.set_value@) =~= prev.push(bv));
                    }
                    Ok(())
                },
                _ => Err(decode_error("invalid wire type")),
            }
        } else if tag == 4 {
            match data {
                FieldData::Bytes(b) => {
                    self.register_value = Some(b);
                    Ok(())
                },
                _ => Err(decode_error("invalid wire type")),
            }
        } else if tag == 5 {
            match data {
                FieldData::Varint(v) => {
                    self.flag_value = Some(v != 0);
                    Ok(())
                },
                _ => Err(decode_error("invalid wire type")),
            }
        } else if tag == 6 {
            match data {
                FieldData::Bytes(b) => {
                    if ctx == 0 {
                        return Err(decode_error("recursion limit reached"));
                    }
                    let mut s = MapEntry::empty();
                    match s.merge_from(b.as_slice(), ctx - 1) {
                        Ok(()) => {
                            let ghost olds = self.map_value@;
                            let ghost sv = s@;
                            self.map_value.push(s);
                            proof {
                                assert(self.map_value@.subrange(0, self.map_value@.len() - 1) =~= olds);
                                assert(map_entries_view(self.map_value@) == map_entries_view(olds).push(sv));
                            }
                            Ok(())
                        },
                        Err(e) => Err(e),
                    }
                },
                _ => Err(decode_error("invalid wire type")),
            }
        } else if ctx == 0 {
            Err(decode_error("recursion limit reached"))
        } else {
            Ok(())
        }
    }

}

/// A request to fetch a data type.
#[derive(Clone, Debug)]
pub struct DtFetchReq {
    pub bucket: Vec<u8>,
    pub key: Vec<u8>,
    pub bucket_type: Vec<u8>,
    pub r: Option<u32>,
    pub pr: Option<u32>,
    pub basic_quorum: Option<bool>,
    pub notfound_ok: Option<bool>,
    pub timeout: Option<u32>,
    pub sloppy_quorum: Option<bool>,
    pub n_val: Option<u32>,
    pub include_context: Option<bool>,
}

/// The value of a `DtFetchReq`.
pub struct DtFetchReqView {
    pub bucket: Seq<u8>,
    pub key: Seq<u8>,
    pub bucket_type: Seq<u8>,
    pub r: Option<u32>,
    pub pr: Option<u32>,
    pub basic_quorum: Option<bool>,
    pub notfound_ok: Option<bool>,
    pub timeout: Option<u32>,
    pub sloppy_quorum: Option<bool>,
    pub n_val: Option<u32>,
    pub include_context: Option<bool>,
}

impl View for DtFetchReq {
    type V = DtFetchReqView;

    open spec fn view(&self) -> DtFetchReqView {
        DtFetchReqView {
            bucket: self.bucket@,
            key: self.key@,
            bucket_type: self.bucket_type@,
            r: self.r,
            pr: self.pr,
            basic_quorum: self.basic_quorum,
            notfound_ok: self.notfound_ok,
            timeout: self.timeout,
            sloppy_quorum: self.sloppy_quorum,
            n_val: self.n_val,
            include_context: self.include_context,
        }
    }
}

/// A `DtFetchReq` with no field set.
pub open spec fn dt_fetch_req_empty() -> DtFetchReqView {
    DtFetchReqView {
        bucket: Seq::empty(),
        key: Seq::empty(),
        bucket_type: Seq::empty(),
        r: None,
        pr: None,
        basic_quorum: None,
        notfound_ok: None,
        timeout: None,
        sloppy_quorum: None,
        n_val: None,
        include_context: None,
    }
}

/// The bytes of a `DtFetchReq`: its fields in the order of their tags.
pub open spec fn dt_fetch_req_bytes(m: DtFetchReqView) -> Seq<u8> {
    bytes_piece(1, m.bucket)
        + bytes_piece(2, m.key)
        + bytes_piece(3, m.bucket_type)
        + opt_varint_piece(4, opt_u32_code(m.r))
        + opt_varint_piece(5, opt_u32_code(m.pr))
        + opt_varint_piece(6, opt_bool_code(m.basic_quorum))
        + opt_varint_piece(7, opt_bool_code(m.notfound_ok))
        + opt_varint_piece(8, opt_u32_code(m.timeout))
        + opt_varint_piece(9, opt_bool_code(m.sloppy_quorum))
        + opt_varint_piece(10, opt_u32_code(m.n_val))
        + opt_varint_piece(11, opt_bool_code(m.include_context))
}

/// What one field read from the wire does to a `DtFetchReq`: `None` where
/// the field has a known tag and a payload of another wire type, or a
/// nested message that does not read. Fields of unknown tags are skipped.
/// `ctx` is what is left of the nesting allowance of 100 messages: a
/// nested message, or an unknown field, needs some of it.
pub open spec fn dt_fetch_req_apply(m: DtFetchReqView, f: RawField, ctx: nat) -> Option<DtFetchReqView>
    decreases ctx, 0nat,
{
    if f.tag == 1 {
        match f.data {
            RawData::Bytes(b) => Some(DtFetchReqView { bucket: b, ..m }),
            _ => None,
        }
    } else if f.tag == 2 {
        match f.data {
            RawData::Bytes(b) => Some(DtFetchReqView { key: b, ..m }),
            _ => None,
        }
    } else if f.tag == 3 {
        match f.data {
            RawData::Bytes(b) => Some(DtFetchReqView { bucket_type: b, ..m }),
            _ => None,
        }
    } else if f.tag == 4 {
        match f.data {
            RawData::Varint(v) => Some(DtFetchReqView { r: Some(u32_of_code(v)), ..m }),
            _ => None,
        }
    } else if f.tag == 5 {
        match f.data {
            RawData::Varint(v) => Some(DtFetchReqView { pr: Some(u32_of_code(v)), ..m }),
            _ => None,
        }
    } else if f.tag == 6 {
        match f.data {
            RawData::Varint(v) => Some(DtFetchReqView { basic_quorum: Some(v != 0), ..m }),
            _ => None,
        }
    } else if f.tag == 7 {
        match f.data {
            RawData::Varint(v) => Some(DtFetchReqView { notfound_ok: Some(v != 0), ..m }),
            _ => None,
        }
    } else if f.tag == 8 {
        match f.data {
            RawData::Varint(v) => Some(DtFetchReqView { timeout: Some(u32_of_code(v)), ..m }),
            _ => None,
        }
    } else if f.tag == 9 {
        match f.data {
            RawData::Varint(v) => Some(DtFetchReqView { sloppy_quorum: Some(v != 0), ..m }),
            _ => None,
        }
    } else if f.tag == 10 {
        match f.data {
            RawData::Varint(v) => Some(DtFetchReqView { n_val: Some(u32_of_code(v)), ..m }),
            _ => None,
        }
    } else if f.tag == 11 {
        match f.data {
            RawData::Varint(v) => Some(DtFetchReqView { include_context: Some(v != 0), ..m }),
            _ => None,
        }
    } else if ctx == 0 {
        None
    } else {
        Some(m)
    }
}

/// Reads the fields of `s` into `m`, one after the other, as `prost`
/// merges a `DtFetchReq`.
pub open spec fn dt_fetch_req_merge(m: DtFetchReqView, s: Seq<u8>, ctx: nat) -> Option<DtFetchReqView>
    decreases ctx, s.len(),
{
    if s.len() == 0 {
        Some(m)
    } else {
        match field_parse(s, ctx) {
            Some((f, n)) => if 1 <= n <= s.len() {
                match dt_fetch_req_apply(m, f, ctx) {
                    Some(m2) => dt_fetch_req_merge(m2, s.skip(n as int), ctx),
                    None => None,
                }
            } else {
                None
            },
            None => None,
        }
    }
}

/// A `DtFetchReq` read from `s`, or `None` where `s` is malformed: its
/// fields merged into an empty message with the full allowance of 100.
pub open spec fn dt_fetch_req_decode(s: Seq<u8>) -> Option<DtFetchReqView> {
    dt_fetch_req_merge(dt_fetch_req_empty(), s, 100)
}

impl DtFetchReq {
    /// A `DtFetchReq` with no field set.
    pub fn empty() -> (r: DtFetchReq)
        ensures
            r@ == dt_fetch_req_empty(),
    {
        let r = DtFetchReq {
            bucket: Vec::new(),
            key: Vec::new(),
            bucket_type: Vec::new(),
            r: None,
            pr: None,
            basic_quorum: None,
            notfound_ok: None,
            timeout: None,
            sloppy_quorum: None,
            n_val: None,
            include_context: None,
        };
        r
    }

    /// The bytes of this message, in a new buffer.
    pub fn encode_to_vec(&self) -> (r: Vec<u8>)
        ensures
            r@ == dt_fetch_req_bytes(self@),
    {
        let mut buf: Vec<u8> = Vec::new();
        self.encode(&mut buf);
        proof {
            assert(buf@ =~= dt_fetch_req_bytes(self@));
        }
        buf
    }

}

impl WireMessage for DtFetchReq {
    open spec fn wire_bytes(&self) -> Seq<u8> {
        dt_fetch_req_bytes(self@)
    }

    fn encode(&self, buf: &mut Vec<u8>) {
        let ghost start = buf@;
        put_bytes_field(buf, 1, self.bucket.as_slice());
        let ghost mut acc = bytes_piece(1, self@.bucket);
        proof {
            assert(buf@ == start + acc);
        }
        put_bytes_field(buf, 2, self.key.as_slice());
        proof {
            lemma_concat_assoc(start, acc, bytes_piece(2, self@.key));
            acc = acc + bytes_piece(2, self@.key);
        }
        put_bytes_field(buf, 3, self.bucket_type.as_slice());
        proof {
            lemma_concat_assoc(start, acc, bytes_piece(3, self@.bucket_type));
            acc = acc + bytes_piece(3, self@.bucket_type);
        }
        put_opt_u32(buf, 4, self.r);
        proof {
            lemma_concat_assoc(start, acc, opt_varint_piece(4, opt_u32_code(self@.r)));
            acc = acc + opt_varint_piece(4, opt_u32_code(self@.r));
        }
        put_opt_u32(buf, 5, self.pr);
        proof {
            lemma_concat_assoc(start, acc, opt_varint_piece(5, opt_u32_code(self@.pr)));
            acc = acc + opt_varint_piece(5, opt_u32_code(self@.pr));
        }
        put_opt_bool(buf, 6, self.basic_quorum);
        proof {
            lemma_concat_assoc(start, acc, opt_varint_piece(6, opt_bool_code(self@.basic_quorum)));
            acc = acc + opt_varint_piece(6, opt_bool_code(self@.basic_quorum));
        }
        put_opt_bool(buf, 7, self.notfound_ok);
        proof {
            lemma_concat_assoc(start, acc, opt_varint_piece(7, opt_bool_code(self@.notfound_ok)));
            acc = acc + opt_varint_piece(7, opt_bool_code(self@.notfound_ok));
        }
        put_opt_u32(buf, 8, self.timeout);
        proof {
            lemma_concat_assoc(start, acc, opt_varint_piece(8, opt_u32_code(self@.timeout)));
            acc = acc + opt_varint_piece(8, opt_u32_code(self@.timeout));
        }
        put_opt_bool(buf, 9, self.sloppy_quorum);
        proof {
            lemma_concat_assoc(start, acc, opt_varint_piece(9, opt_bool_code(self@.sloppy_quorum)));
            acc = acc + opt_varint_piece(9, opt_bool_code(self@.sloppy_quorum));
        }
        put_opt_u32(buf, 10, self.n_val);
        proof {
            lemma_concat_assoc(start, acc, opt_varint_piece(10, opt_u32_code(self@.n_val)));
            acc = acc + opt_varint_piece(10, opt_u32_code(self@.n_val));
        }
        put_opt_bool(buf, 11, self.include_context);
        proof {
            lemma_concat_assoc(start, acc, opt_varint_piece(11, opt_bool_code(self@.include_context)));
            acc = acc + opt_varint_piece(11, opt_bool_code(self@.include_context));
        }
        proof {
            assert(acc == dt_fetch_req_bytes(self@));
        }
    }
}

/// The value of a data type.
#[derive(Debug)]
pub struct DtValue {
    pub counter_value: Option<i64>,
    pub set_value: Vec<Vec<u8>>,
    pub map_value: Vec<MapEntry>,
    pub hll_value: Option<u64>,
    pub gset_value: Vec<Vec<u8>>,
}

/// The value of a `DtValue`.
pub struct DtValueView {
    pub counter_value: Option<i64>,
    pub set_value: Seq<Seq<u8>>,
    pub map_value: Seq<MapEntryView>,
    pub hll_value: Option<u64>,
    pub gset_value: Seq<Seq<u8>>,
}

impl View for DtValue {
    type V = DtValueView;

    open spec fn view(&self) -> DtValueView {
        DtValueView {
            counter_value: self.counter_value,
            set_value: bytes_seq_view(self.set_value@),
            map_value: map_entries_view(self.map_value@),
            hll_value: self.hll_value,
            gset_value: bytes_seq_view(self.gset_value@),
        }
    }
}

/// A `DtValue` with no field set.
pub open spec fn dt_value_empty() -> DtValueView {
    DtValueView {
        counter_value: None,
        set_value: Seq::empty(),
        map_value: Seq::empty(),
        hll_value: None,
        gset_value: Seq::empty(),
    }
}

/// What one field read from the wire does to a `DtValue`: `None` where
/// the field has a known tag and a payload of another wire type, or a
/// nested message that does not read. Fields of unknown tags are skipped.
/// `ctx` is what is left of the nesting allowance of 100 messages: a
/// nested message, or an unknown field, needs some of it.
pub open spec fn dt_value_apply(m: DtValueView, f: RawField, ctx: nat) -> Option<DtValueView>
    decreases ctx, 0nat,
{
    if f.tag == 1 {
        match f.data {
            RawData::Varint(v) => Some(DtValueView { counter_value: Some(zigzag_of_code(v)), ..m }),
            _ => None,
        }
    } else if f.tag == 2 {
        match f.data {
            RawData::Bytes(b) => Some(DtValueView { set_value: m.set_value.push(b), ..m }),
            _ => None,
        }
    } else if f.tag == 3 {
        match f.data {
            RawData::Bytes(b) => if ctx == 0 {
                None
            } else {
                match map_entry_merge(map_entry_empty(), b, (ctx - 1) as nat) {
                    Some(s) => Some(DtValueView { map_value: m.map_value.push(s), ..m }),
                    None => None,
                }
            },
            _ => None,
        }
    } else if f.tag == 4 {
        match f.data {
            RawData::Varint(v) => Some(DtValueView { hll_value: Some(v), ..m }),
            _ => None,
        }
    } else if f.tag == 5 {
        match f.data {
            RawData::Bytes(b) => Some(DtValueView { gset_value: m.gset_value.push(b), ..m }),
            _ => None,
        }
    } else if ctx == 0 {
        None
    } else {
        Some(m)
    }
}

/// Reads the fields of `s` into `m`, one after the other, as `prost`
/// merges a `DtValue`.
pub open spec fn dt_value_merge(m: DtValueView, s: Seq<u8>, ctx: nat) -> Option<DtValueView>
    decreases ctx, s.len(),
{
    if s.len() == 0 {
        Some(m)
    } else {
        match field_parse(s, ctx) {
            Some((f, n)) => if 1 <= n <= s.len() {
                match dt_value_apply(m, f, ctx) {
                    Some(m2) => dt_value_merge(m2, s.skip(n as int), ctx),
                    None => None,
                }
            } else {
                None
            },
            None => None,
        }
    }
}

impl DtValue {
    /// A `DtValue` with no field set.
    pub fn empty() -> (r: DtValue)
        ensures
            r@ == dt_value_empty(),
    {
        let r = DtValue {
            counter_value: None,
            set_value: Vec::new(),
            map_value: Vec::new(),
            hll_value: None,
            gset_value: Vec::new(),
        };
        proof {
            assert(bytes_seq_view(r.set_value@) =~= Seq::<Seq<u8>>::empty());
            assert(map_entries_view(r.map_value@) =~= Seq::<MapEntryView>::empty());
            assert(bytes_seq_view(r.gset_value@) =~= Seq::<Seq<u8>>::empty());
        }
        r
    }

    /// Reads the fields of `buf` into this message, as `prost` merges a
    /// `DtValue`.
    pub fn merge_from(&mut self, buf: &[u8], ctx: u32) -> (res: Result<(), DecodeError>)
        ensures
            match res {
                Ok(()) => dt_value_merge(old(self)@, buf@, ctx as nat) == Some(final(self)@),
                Err(_) => dt_value_merge(old(self)@, buf@, ctx as nat) is None,
            },
        decreases ctx, buf@.len(),
    {
        let mut rest = buf;
        while rest.len() > 0
            invariant
                dt_value_merge(old(self)@, buf@, ctx as nat) == dt_value_merge(self@, rest@, ctx as nat),
                rest@.len() <= buf@.len(),
            decreases rest@.len(),
        {
            let (f, r2) = match read_field(rest, ctx) {
                Ok(p) => p,
                Err(e) => return Err(e),
            };
            proof {
                lemma_field_parse_len(rest@, ctx as nat);
            }
            match self.apply_field(f, ctx) {
                Ok(()) => {},
                Err(e) => return Err(e),
            }
            rest = r2;
        }
        Ok(())
    }

    fn apply_field(&mut self, f: Field, ctx: u32) -> (res: Result<(), DecodeError>)
        ensures
            match res {
                Ok(()) => dt_value_apply(old(self)@, f@, ctx as nat) == Some(final(self)@),
                Err(_) => dt_value_apply(old(self)@, f@, ctx as nat) is None,
            },
        decreases ctx, 0nat,
    {
        let Field { tag, data } = f;
        if tag == 1 {
            match data {
                FieldData::Varint(v) => {
                    self.counter_value = Some(zigzag_from_code(v));
                    Ok(())
                },
                _ => Err(decode_error("invalid wire type")),
            }
        } else if tag == 2 {
            match data {
                FieldData::Bytes(b) => {
                    let ghost prev = bytes_seq_view(self.set_value@);
                    let ghost bv = b@;
                    self.set_value.push(b);
                    proof {
                        assert(bytes_seq_view(self.set_value@) =~= prev.push(bv));
                    }
                    Ok(())
                },
                _ => Err(decode_error("invalid wire type")),
            }
        } else if tag == 3 {
            match data {
                FieldData::Bytes(b) => {
                    if ctx == 0 {
                        return Err(decode_error("recursion limit reached"));
                    }
                    let mut s = MapEntry::empty();
                    match s.merge_from(b.as_slice(), ctx - 1) {
                        Ok(()) => {
                            let ghost olds = self.map_value@;
                            let ghost sv = s@;
                            self.map_value.push(s);
                            proof {
                                assert(self.map_value@.subrange(0, self.map_value@.len() - 1) =~= olds);
                                assert(map_entries_view(self.map_value@) == map_entries_view(olds).push(sv));
                            }
                            Ok(())
                        },
                        Err(e) => Err(e),
                    }
                },
                _ => Err(decode_error("invalid wire type")),
            }
        } else if tag == 4 {
            match data {
                FieldData::Varint(v) => {
                    self.hll_value = Some(v);
                    Ok(())
                },
                _ => Err(decode_error("invalid wire type")),
            }
        } else if tag == 5 {
            match data {
                FieldData::Bytes(b) => {
                    let ghost prev = bytes_seq_view(self.gset_value@);
                    let ghost bv = b@;
                    self.gset_value.push(b);
                    proof {
                        assert(bytes_seq_view(self.gset_value@) =~= prev.push(bv));
                    }
                    Ok(())
                },
                _ => Err(decode_error("invalid wire type")),
            }
        } else if ctx == 0 {
            Err(decode_error("recursion limit reached"))
        } else {
            Ok(())
        }
    }

}

/// A data type as the server sends it.
#[derive(Debug)]
pub struct DtFetchResp {
    pub context: Option<Vec<u8>>,
    pub data_type: i32,
    pub value: Option<DtValue>,
}

/// The value of a `DtFetchResp`.
pub struct DtFetchRespView {
    pub context: Option<Seq<u8>>,
    pub data_type: i32,
    pub value: Option<DtValueView>,
}

impl View for DtFetchResp {
    type V = DtFetchRespView;

    open spec fn view(&self) -> DtFetchRespView {
        DtFetchRespView {
            context: opt_bytes_view(self.context),
            data_type: self.data_type,
            value: match self.value { Some(m) => Some(m@), None => None },
        }
    }
}

/// A `DtFetchResp` with no field set.
pub open spec fn dt_fetch_resp_empty() -> DtFetchRespView {
    DtFetchRespView {
        context: None,
        data_type: 1,
        value: None,
    }
}

/// What one field read from the wire does to a `DtFetchResp`: `None` where
/// the field has a known tag and a payload of another wire type, or a
/// nested message that does not read. Fields of unknown tags are skipped.
/// `ctx` is what is left of the nesting allowance of 100 messages: a
/// nested message, or an unknown field, needs some of it.
pub open spec fn dt_fetch_resp_apply(m: DtFetchRespView, f: RawField, ctx: nat) -> Option<DtFetchRespView>
    decreases ctx, 0nat,
{
    if f.tag == 1 {
        match f.data {
            RawData::Bytes(b) => Some(DtFetchRespView { context: Some(b), ..m }),
            _ => None,
        }
    } else if f.tag == 2 {
        match f.data {
            RawData::Varint(v) => Some(DtFetchRespView { data_type: i32_of_code(v), ..m }),
            _ => None,
        }
    } else if f.tag == 3 {
        match f.data {
            RawData::Bytes(b) => if ctx == 0 {
                None
            } else {
                match dt_value_merge(match m.value { Some(s) => s, None => dt_value_empty() }, b, (ctx - 1) as nat) {
                    Some(s) => Some(DtFetchRespView { value: Some(s), ..m }),
                    None => None,
                }
            },
            _ => None,
        }
    } else if ctx == 0 {
        None
    } else {
        Some(m)
    }
}

/// Reads the fields of `s` into `m`, one after the other, as `prost`
/// merges a `DtFetchResp`.
pub open spec fn dt_fetch_resp_merge(m: DtFetchRespView, s: Seq<u8>, ctx: nat) -> Option<DtFetchRespView>
    decreases ctx, s.len(),
{
    if s.len() == 0 {
        Some(m)
    } else {
        match field_parse(s, ctx) {
            Some((f, n)) => if 1 <= n <= s.len() {
                match dt_fetch_resp_apply(m, f, ctx) {
                    Some(m2) => dt_fetch_resp_merge(m2, s.skip(n as int), ctx),
                    None => None,
                }
            } else {
                None
            },
            None => None,
        }
    }
}

/// A `DtFetchResp` read from `s`, or `None` where `s` is malformed: its
/// fields merged into an empty message with the full allowance of 100.
pub open spec fn dt_fetch_resp_decode(s: Seq<u8>) -> Option<DtFetchRespView> {
    dt_fetch_resp_merge(dt_fetch_resp_empty(), s, 100)
}

impl DtFetchResp {
    /// A `DtFetchResp` with no field set.
    pub fn empty() -> (r: DtFetchResp)
        ensures
            r@ == dt_fetch_resp_empty(),
    {
        let r = DtFetchResp {
            context: None,
            data_type: 1,
            value: None,
        };
        r
    }

    /// Reads the fields of `buf` into this message, as `prost` merges a
    /// `DtFetchResp`.
    pub fn merge_from(&mut self, buf: &[u8], ctx: u32) -> (res: Result<(), DecodeError>)
        ensures
            match res {
                Ok(()) => dt_fetch_resp_merge(old(self)@, buf@, ctx as nat) == Some(final(self)@),
                Err(_) => dt_fetch_resp_merge(old(self)@, buf@, ctx as nat) is None,
            },
        decreases ctx, buf@.len(),
    {
        let mut rest = buf;
        while rest.len() > 0
            invariant
                dt_fetch_resp_merge(old(self)@, buf@, ctx as nat) == dt_fetch_resp_merge(self@, rest@, ctx as nat),
                rest@.len() <= buf@.len(),
            decreases rest@.len(),
        {
            let (f, r2) = match read_field(rest, ctx) {
                Ok(p) => p,
                Err(e) => return Err(e),
            };
            proof {
                lemma_field_parse_len(rest@, ctx as nat);
            }
            match self.apply_field(f, ctx) {
                Ok(()) => {},
                Err(e) => return Err(e),
            }
            rest = r2;
        }
        Ok(())
    }

    /// Reads a `DtFetchResp` from `buf`, with the full allowance of 100.
    pub fn decode(buf: &[u8]) -> (res: Result<DtFetchResp, DecodeError>)
        ensures
            match res {
                Ok(m) => dt_fetch_resp_decode(buf@) == Some(m@),
                Err(_) => dt_fetch_resp_decode(buf@) is None,
            },
    {
        let mut m = DtFetchResp::empty();
        match m.merge_from(buf, 100) {
            Ok(()) => Ok(m),
            Err(e) => Err(e),
        }
    }

    fn apply_field(&mut self, f: Field, ctx: u32) -> (res: Result<(), DecodeError>)
        ensures
            match res {
                Ok(()) => dt_fetch_resp_apply(old(self)@, f@, ctx as nat) == Some(final(self)@),
                Err(_) => dt_fetch_resp_apply(old(self)@, f@, ctx as nat) is None,
            },
        decreases ctx, 0nat,
    {
        let Field { tag, data } = f;
        if tag == 1 {
            match data {
                FieldData::Bytes(b) => {
                    self.context = Some(b);
                    Ok(())
                },
                _ => Err(decode_error("invalid wire type")),
            }
        } else if tag == 2 {
            match data {
                FieldData::Varint(v) => {
                    self.data_type = i32_from_code(v);
                    Ok(())
                },
                _ => Err(decode_error("invalid wire type")),
            }
        } else if tag == 3 {
            match data {
                FieldData::Bytes(b) => {
                    if ctx == 0 {
                        return Err(decode_error("recursion limit reached"));
                    }
                    let mut s = match self.value.take() {
                        Some(s) => s,
                        None => DtValue::empty(),
                    };
                    match s.merge_from(b.as_slice(), ctx - 1) {
                        Ok(()) => {
                            self.value = Some(s);
                            Ok(())
                        },
                        Err(e) => Err(e),
                    }
                },
                _ => Err(decode_error("invalid wire type")),
            }
        } else if ctx == 0 {
            Err(decode_error("recursion limit reached"))
        } else {
            Ok(())
        }
    }

}

/// A request to update a data type (its scalar fields).
#[derive(Clone, Debug)]
pub struct DtUpdateReq {
    pub bucket: Vec<u8>,
    pub key: Option<Vec<u8>>,
    pub bucket_type: Vec<u8>,
    pub context: Option<Vec<u8>>,
    pub w: Option<u32>,
    pub dw: Option<u32>,
    pub pw: Option<u32>,
    pub return_body: Option<bool>,
    pub timeout: Option<u32>,
    pub sloppy_quorum: Option<bool>,
    pub n_val: Option<u32>,
    pub include_context: Option<bool>,
}

/// The value of a `DtUpdateReq`.
pub struct DtUpdateReqView {
    pub bucket: Seq<u8>,
    pub key: Option<Seq<u8>>,
    pub bucket_type: Seq<u8>,
    pub context: Option<Seq<u8>>,
    pub w: Option<u32>,
    pub dw: Option<u32>,
    pub pw: Option<u32>,
    pub return_body: Option<bool>,
    pub timeout: Option<u32>,
    pub sloppy_quorum: Option<bool>,
    pub n_val: Option<u32>,
    pub include_context: Option<bool>,
}

impl View for DtUpdateReq {
    type V = DtUpdateReqView;

    open spec fn view(&self) -> DtUpdateReqView {
        DtUpdateReqView {
            bucket: self.bucket@,
            key: opt_bytes_view(self.key),
            bucket_type: self.bucket_type@,
            context: opt_bytes_view(self.context),
            w: self.w,
            dw: self.dw,
            pw: self.pw,
            return_body: self.return_body,
            timeout: self.timeout,
            sloppy_quorum: self.sloppy_quorum,
            n_val: self.n_val,
            include_context: self.include_context,
        }
    }
}

/// A `DtUpdateReq` with no field set.
pub open spec fn dt_update_req_empty() -> DtUpdateReqView {
    DtUpdateReqView {
        bucket: Seq::empty(),
        key: None,
        bucket_type: Seq::empty(),
        context: None,
        w: None,
        dw: None,
        pw: None,
        return_body: None,
        timeout: None,
        sloppy_quorum: None,
        n_val: None,
        include_context: None,
    }
}

/// The bytes of a `DtUpdateReq`: its fields in the order of their tags.
pub open spec fn dt_update_req_bytes(m: DtUpdateReqView) -> Seq<u8> {
    bytes_piece(1, m.bucket)
        + opt_bytes_piece(2, m.key)
        + bytes_piece(3, m.bucket_type)
        + opt_bytes_piece(4, m.context)
        + opt_varint_piece(6, opt_u32_code(m.w))
        + opt_varint_piece(7, opt_u32_code(m.dw))
        + opt_varint_piece(8, opt_u32_code(m.pw))
        + opt_varint_piece(9, opt_bool_code(m.return_body))
        + opt_varint_piece(10, opt_u32_code(m.timeout))
        + opt_varint_piece(11, opt_bool_code(m.sloppy_quorum))
        + opt_varint_piece(12, opt_u32_code(m.n_val))
        + opt_varint_piece(13, opt_bool_code(m.include_context))
}

/// What one field read from the wire does to a `DtUpdateReq`: `None` where
/// the field has a known tag and a payload of another wire type, or a
/// nested message that does not read. Fields of unknown tags are skipped.
/// `ctx` is what is left of the nesting allowance of 100 messages: a
/// nested message, or an unknown field, needs some of it.
pub open spec fn dt_update_req_apply(m: DtUpdateReqView, f: RawField, ctx: nat) -> Option<DtUpdateReqView>
    decreases ctx, 0nat,
{
    if f.tag == 1 {
        match f.data {
            RawData::Bytes(b) => Some(DtUpdateReqView { bucket: b, ..m }),
            _ => None,
        }
    } else if f.tag == 2 {
        match f.data {
            RawData::Bytes(b) => Some(DtUpdateReqView { key: Some(b), ..m }),
            _ => None,
        }
    } else if f.tag == 3 {
        match f.data {
            RawData::Bytes(b) => Some(DtUpdateReqView { bucket_type: b, ..m }),
            _ => None,
        }
    } else if f.tag == 4 {
        match f.data {
            RawData::Bytes(b) => Some(DtUpdateReqView { context: Some(b), ..m }),
            _ => None,
        }
    } else if f.tag == 6 {
        match f.data {
            RawData::Varint(v) => Some(DtUpdateReqView { w: Some(u32_of_code(v)), ..m }),
            _ => None,
        }
    } else if f.tag == 7 {
        match f.data {
            RawData::Varint(v) => Some(DtUpdateReqView { dw: Some(u32_of_code(v)), ..m }),
            _ => None,
        }
    } else if f.tag == 8 {
        match f.data {
            RawData::Varint(v) => Some(DtUpdateReqView { pw: Some(u32_of_code(v)), ..m }),
            _ => None,
        }
    } else if f.tag == 9 {
        match f.data {
            RawData::Varint(v) => Some(DtUpdateReqView { return_body: Some(v != 0), ..m }),
            _ => None,
        }
    } else if f.tag == 10 {
        match f.data {
            RawData::Varint(v) => Some(DtUpdateReqView { timeout: Some(u32_of_code(v)), ..m }),
            _ => None,
        }
    } else if f.tag == 11 {
        match f.data {
            RawData::Varint(v) => Some(DtUpdateReqView { sloppy_quorum: Some(v != 0), ..m }),
            _ => None,
        }
    } else if f.tag == 12 {
        match f.data {
            RawData::Varint(v) => Some(DtUpdateReqView { n_val: Some(u32_of_code(v)), ..m }),
            _ => None,
        }
    } else if f.tag == 13 {
        match f.data {
            RawData::Varint(v) => Some(DtUpdateReqView { include_context: Some(v != 0), ..m }),
            _ => None,
        }
    } else if ctx == 0 {
        None
    } else {
        Some(m)
    }
}

/// Reads the fields of `s` into `m`, one after the other, as `prost`
/// merges a `DtUpdateReq`.
pub open spec fn dt_update_req_merge(m: DtUpdateReqView, s: Seq<u8>, ctx: nat) -> Option<DtUpdateReqView>
    decreases ctx, s.len(),
{
    if s.len() == 0 {
        Some(m)
    } else {
        match field_parse(s, ctx) {
            Some((f, n)) => if 1 <= n <= s.len() {
                match dt_update_req_apply(m, f, ctx) {
                    Some(m2) => dt_update_req_merge(m2, s.skip(n as int), ctx),
                    None => None,
                }
            } else {
                None
            },
            None => None,
        }
    }
}

/// A `DtUpdateReq` read from `s`, or `None` where `s` is malformed: its
/// fields merged into an empty message with the full allowance of 100.
pub open spec fn dt_update_req_decode(s: Seq<u8>) -> Option<DtUpdateReqView> {
    dt_update_req_merge(dt_update_req_empty(), s, 100)
}

impl DtUpdateReq {
    /// A `DtUpdateReq` with no field set.
    pub fn empty() -> (r: DtUpdateReq)
        ensures
            r@ == dt_update_req_empty(),
    {
        let r = DtUpdateReq {
            bucket: Vec::new(),
            key: None,
            bucket_type: Vec::new(),
            context: None,
            w: None,
            dw: None,
            pw: None,
            return_body: None,
            timeout: None,
            sloppy_quorum: None,
            n_val: None,
            include_context: None,
        };
        r
    }

}

proof fn lemma_map_field_field_name(cur: MapFieldView, v: Seq<u8>, rest: Seq<u8>, ctx: nat)
    requires
        cur.name == map_field_empty().name,
        (bytes_piece(1, v) + rest).len() < 0x1_0000_0000_0000_0000,
        ctx >= 0,
    ensures
        map_field_merge(cur, bytes_piece(1, v) + rest, ctx) == map_field_merge((MapFieldView { name: v, ..cur }), rest, ctx),
{
    let f = bytes_field(1, v);
    let s = bytes_piece(1, v) + rest;
    lemma_field_roundtrip(f, rest, ctx);
    lemma_field_parse_len(s, ctx);
    assert(s.skip(field_bytes(f).len() as int) =~= rest);
    assert(map_field_apply(cur, f, ctx) == Some(MapFieldView { name: v, ..cur }));
}

proof fn lemma_map_field_field_field_type(cur: MapFieldView, v: i32, rest: Seq<u8>, ctx: nat)
    requires
        cur.field_type == map_field_empty().field_type,
        (varint_piece(2, i32_code(v)) + rest).len() < 0x1_0000_0000_0000_0000,
        ctx >= 0,
    ensures
        map_field_merge(cur, varint_piece(2, i32_code(v)) + rest, ctx) == map_field_merge((MapFieldView { field_type: v, ..cur }), rest, ctx),
{
    let f = varint_field(2, i32_code(v));
    let s = varint_piece(2, i32_code(v)) + rest;
    lemma_field_roundtrip(f, rest, ctx);
    lemma_field_parse_len(s, ctx);
    assert(s.skip(field_bytes(f).len() as int) =~= rest);
    lemma_i32_code_roundtrip(v);
    assert(map_field_apply(cur, f, ctx) == Some(MapFieldView { field_type: v, ..cur }));
}

/// A `MapField` written to bytes merges back into an empty one as itself,
/// with an allowance of at least 0.
#[verifier::rlimit(50)]
pub proof fn lemma_map_field_reads_back(m: MapFieldView, ctx: nat)
    requires
        map_field_bytes(m).len() < 0x1_0000_0000_0000_0000,
        ctx >= 0,
    ensures
        map_field_merge(map_field_empty(), map_field_bytes(m), ctx) == Some(m),
{
    let p0 = bytes_piece(1, m.name);
    let p1 = varint_piece(2, i32_code(m.field_type));
    let s2 = Seq::<u8>::empty();
    let s1 = p1 + s2;
    let s0 = p0 + s1;
    assert(map_field_bytes(m) == s0) by {
        lemma_concat_assoc(p0, p1, s2);
        assert(p0 + p1 + s2 =~= p0 + p1);
    }
    let m0 = map_field_empty();
    let m1 = MapFieldView { name: m.name, ..m0 };
    let m2 = MapFieldView { field_type: m.field_type, ..m1 };
    lemma_map_field_field_name(m0, m.name, s1, ctx);
    lemma_map_field_field_field_type(m1, m.field_type, s2, ctx);
    assert(m2 == m);
}

/// A `MapField` written to bytes reads back as itself.
pub proof fn lemma_map_field_roundtrip(m: MapFieldView)
    requires
        map_field_bytes(m).len() < 0x1_0000_0000_0000_0000,
    ensures
        map_field_decode(map_field_bytes(m)) == Some(m),
{
    lemma_map_field_reads_back(m, 100);
}

proof fn lemma_dt_fetch_req_field_bucket(cur: DtFetchReqView, v: Seq<u8>, rest: Seq<u8>, ctx: nat)
    requires
        cur.bucket == dt_fetch_req_empty().bucket,
        (bytes_piece(1, v) + rest).len() < 0x1_0000_0000_0000_0000,
        ctx >= 0,
    ensures
        dt_fetch_req_merge(cur, bytes_piece(1, v) + rest, ctx) == dt_fetch_req_merge((DtFetchReqView { bucket: v, ..cur }), rest, ctx),
{
    let f = bytes_field(1, v);
    let s = bytes_piece(1, v) + rest;
    lemma_field_roundtrip(f, rest, ctx);
    lemma_field_parse_len(s, ctx);
    assert(s.skip(field_bytes(f).len() as int) =~= rest);
    assert(dt_fetch_req_apply(cur, f, ctx) == Some(DtFetchReqView { bucket: v, ..cur }));
}

proof fn lemma_dt_fetch_req_field_key(cur: DtFetchReqView, v: Seq<u8>, rest: Seq<u8>, ctx: nat)
    requires
        cur.key == dt_fetch_req_empty().key,
        (bytes_piece(2, v) + rest).len() < 0x1_0000_0000_0000_0000,
        ctx >= 0,
    ensures
        dt_fetch_req_merge(cur, bytes_piece(2, v) + rest, ctx) == dt_fetch_req_merge((DtFetchReqView { key: v, ..cur }), rest, ctx),
{
    let f = bytes_field(2, v);
    let s = bytes_piece(2, v) + rest;
    lemma_field_roundtrip(f, rest, ctx);
    lemma_field_parse_len(s, ctx);
    assert(s.skip(field_bytes(f).len() as int) =~= rest);
    assert(dt_fetch_req_apply(cur, f, ctx) == Some(DtFetchReqView { key: v, ..cur }));
}

proof fn lemma_dt_fetch_req_field_bucket_type(cur: DtFetchReqView, v: Seq<u8>, rest: Seq<u8>, ctx: nat)
    requires
        cur.bucket_type == dt_fetch_req_empty().bucket_type,
        (bytes_piece(3, v) + rest).len() < 0x1_0000_0000_0000_0000,
        ctx >= 0,
    ensures
        dt_fetch_req_merge(cur, bytes_piece(3, v) + rest, ctx) == dt_fetch_req_merge((DtFetchReqView { bucket_type: v, ..cur }), rest, ctx),
{
    let f = bytes_field(3, v);
    let s = bytes_piece(3, v) + rest;
    lemma_field_roundtrip(f, rest, ctx);
    lemma_field_parse_len(s, ctx);
    assert(s.skip(field_bytes(f).len() as int) =~= rest);
    assert(dt_fetch_req_apply(cur, f, ctx) == Some(DtFetchReqView { bucket_type: v, ..cur }));
}

proof fn lemma_dt_fetch_req_field_r(cur: DtFetchReqView, v: Option<u32>, rest: Seq<u8>, ctx: nat)
    requires
        cur.r == dt_fetch_req_empty().r,
        (opt_varint_piece(4, opt_u32_code(v)) + rest).len() < 0x1_0000_0000_0000_0000,
        ctx >= 0,
    ensures
        dt_fetch_req_merge(cur, opt_varint_piece(4, opt_u32_code(v)) + rest, ctx) == dt_fetch_req_merge((DtFetchReqView { r: v, ..cur }), rest, ctx),
{
    if v is Some {
        let f = varint_field(4, v->0 as u64);
        let s = opt_varint_piece(4, opt_u32_code(v)) + rest;
        lemma_field_roundtrip(f, rest, ctx);
        lemma_field_parse_len(s, ctx);
        assert(s.skip(field_bytes(f).len() as int) =~= rest);
        assert(dt_fetch_req_apply(cur, f, ctx) == Some(DtFetchReqView { r: v, ..cur }));
    } else {
        assert(opt_varint_piece(4, opt_u32_code(v)) + rest =~= rest);
        assert((DtFetchReqView { r: v, ..cur }) == cur);
    }
}

proof fn lemma_dt_fetch_req_field_pr(cur: DtFetchReqView, v: Option<u32>, rest: Seq<u8>, ctx: nat)
    requires
        cur.pr == dt_fetch_req_empty().pr,
        (opt_varint_piece(5, opt_u32_code(v)) + rest).len() < 0x1_0000_0000_0000_0000,
        ctx >= 0,
    ensures
        dt_fetch_req_merge(cur, opt_varint_piece(5, opt_u32_code(v)) + rest, ctx) == dt_fetch_req_merge((DtFetchReqView { pr: v, ..cur }), rest, ctx),
{
    if v is Some {
        let f = varint_field(5, v->0 as u64);
        let s = opt_varint_piece(5, opt_u32_code(v)) + rest;
        lemma_field_roundtrip(f, rest, ctx);
        lemma_field_parse_len(s, ctx);
        assert(s.skip(field_bytes(f).len() as int) =~= rest);
        assert(dt_fetch_req_apply(cur, f, ctx) == Some(DtFetchReqView { pr: v, ..cur }));
    } else {
        assert(opt_varint_piece(5, opt_u32_code(v)) + rest =~= rest);
        assert((DtFetchReqView { pr: v, ..cur }) == cur);
    }
}

proof fn lemma_dt_fetch_req_field_basic_quorum(cur: DtFetchReqView, v: Option<bool>, rest: Seq<u8>, ctx: nat)
    requires
        cur.basic_quorum == dt_fetch_req_empty().basic_quorum,
        (opt_varint_piece(6, opt_bool_code(v)) + rest).len() < 0x1_0000_0000_0000_0000,
        ctx >= 0,
    ensures
        dt_fetch_req_merge(cur, opt_varint_piece(6, opt_bool_code(v)) + rest, ctx) == dt_fetch_req_merge((DtFetchReqView { basic_quorum: v, ..cur }), rest, ctx),
{
    if v is Some {
        let f = varint_field(6, bool_code(v->0));
        let s = opt_varint_piece(6, opt_bool_code(v)) + rest;
        lemma_field_roundtrip(f, rest, ctx);
        lemma_field_parse_len(s, ctx);
        assert(s.skip(field_bytes(f).len() as int) =~= rest);
        assert(dt_fetch_req_apply(cur, f, ctx) == Some(DtFetchReqView { basic_quorum: v, ..cur }));
    } else {
        assert(opt_varint_piece(6, opt_bool_code(v)) + rest =~= rest);
        assert((DtFetchReqView { basic_quorum: v, ..cur }) == cur);
    }
}

proof fn lemma_dt_fetch_req_field_notfound_ok(cur: DtFetchReqView, v: Option<bool>, rest: Seq<u8>, ctx: nat)
    requires
        cur.notfound_ok == dt_fetch_req_empty().notfound_ok,
        (opt_varint_piece(7, opt_bool_code(v)) + rest).len() < 0x1_0000_0000_0000_0000,
        ctx >= 0,
    ensures
        dt_fetch_req_merge(cur, opt_varint_piece(7, opt_bool_code(v)) + rest, ctx) == dt_fetch_req_merge((DtFetchReqView { notfound_ok: v, ..cur }), rest, ctx),
{
    if v is Some {
        let f = varint_field(7, bool_code(v->0));
        let s = opt_varint_piece(7, opt_bool_code(v)) + rest;
        lemma_field_roundtrip(f, rest, ctx);
        lemma_field_parse_len(s, ctx);
        assert(s.skip(field_bytes(f).len() as int) =~= rest);
        assert(dt_fetch_req_apply(cur, f, ctx) == Some(DtFetchReqView { notfound_ok: v, ..cur }));
    } else {
        assert(opt_varint_piece(7, opt_bool_code(v)) + rest =~= rest);
        assert((DtFetchReqView { notfound_ok: v, ..cur }) == cur);
    }
}

proof fn lemma_dt_fetch_req_field_timeout(cur: DtFetchReqView, v: Option<u32>, rest: Seq<u8>, ctx: nat)
    requires
        cur.timeout == dt_fetch_req_empty().timeout,
        (opt_varint_piece(8, opt_u32_code(v)) + rest).len() < 0x1_0000_0000_0000_0000,
        ctx >= 0,
    ensures
        dt_fetch_req_merge(cur, opt_varint_piece(8, opt_u32_code(v)) + rest, ctx) == dt_fetch_req_merge((DtFetchReqView { timeout: v, ..cur }), rest, ctx),
{
    if v is Some {
        let f = varint_field(8, v->0 as u64);
        let s = opt_varint_piece(8, opt_u32_code(v)) + rest;
        lemma_field_roundtrip(f, rest, ctx);
        lemma_field_parse_len(s, ctx);
        assert(s.skip(field_bytes(f).len() as int) =~= rest);
        assert(dt_fetch_req_apply(cur, f, ctx) == Some(DtFetchReqView { timeout: v, ..cur }));
    } else {
        assert(opt_varint_piece(8, opt_u32_code(v)) + rest =~= rest);
        assert((DtFetchReqView { timeout: v, ..cur }) == cur);
    }
}

proof fn lemma_dt_fetch_req_field_sloppy_quorum(cur: DtFetchReqView, v: Option<bool>, rest: Seq<u8>, ctx: nat)
    requires
        cur.sloppy_quorum == dt_fetch_req_empty().sloppy_quorum,
        (opt_varint_piece(9, opt_bool_code(v)) + rest).len() < 0x1_0000_0000_0000_0000,
        ctx >= 0,
    ensures
        dt_fetch_req_merge(cur, opt_varint_piece(9, opt_bool_code(v)) + rest, ctx) == dt_fetch_req_merge((DtFetchReqView { sloppy_quorum: v, ..cur }), rest, ctx),
{
    if v is Some {
        let f = varint_field(9, bool_code(v->0));
        let s = opt_varint_piece(9, opt_bool_code(v)) + rest;
        lemma_field_roundtrip(f, rest, ctx);
        lemma_field_parse_len(s, ctx);
        assert(s.skip(field_bytes(f).len() as int) =~= rest);
        assert(dt_fetch_req_apply(cur, f, ctx) == Some(DtFetchReqView { sloppy_quorum: v, ..cur }));
    } else {
        assert(opt_varint_piece(9, opt_bool_code(v)) + rest =~= rest);
        assert((DtFetchReqView { sloppy_quorum: v, ..cur }) == cur);
    }
}

proof fn lemma_dt_fetch_req_field_n_val(cur: DtFetchReqView, v: Option<u32>, rest: Seq<u8>, ctx: nat)
    requires
        cur.n_val == dt_fetch_req_empty().n_val,
        (opt_varint_piece(10, opt_u32_code(v)) + rest).len() < 0x1_0000_0000_0000_0000,
        ctx >= 0,
    ensures
        dt_fetch_req_merge(cur, opt_varint_piece(10, opt_u32_code(v)) + rest, ctx) == dt_fetch_req_merge((DtFetchReqView { n_val: v, ..cur }), rest, ctx),
{
    if v is Some {
        let f = varint_field(10, v->0 as u64);
        let s = opt_varint_piece(10, opt_u32_code(v)) + rest;
        lemma_field_roundtrip(f, rest, ctx);
        lemma_field_parse_len(s, ctx);
        assert(s.skip(field_bytes(f).len() as int) =~= rest);
        assert(dt_fetch_req_apply(cur, f, ctx) == Some(DtFetchReqView { n_val: v, ..cur }));
    } else {
        assert(opt_varint_piece(10, opt_u32_code(v)) + rest =~= rest);
        assert((DtFetchReqView { n_val: v, ..cur }) == cur);
    }
}

proof fn lemma_dt_fetch_req_field_include_context(cur: DtFetchReqView, v: Option<bool>, rest: Seq<u8>, ctx: nat)
    requires
        cur.include_context == dt_fetch_req_empty().include_context,
        (opt_varint_piece(11, opt_bool_code(v)) + rest).len() < 0x1_0000_0000_0000_0000,
        ctx >= 0,
    ensures
        dt_fetch_req_merge(cur, opt_varint_piece(11, opt_bool_code(v)) + rest, ctx) == dt_fetch_req_merge((DtFetchReqView { include_context: v, ..cur }), rest, ctx),
{
    if v is Some {
        let f = varint_field(11, bool_code(v->0));
        let s = opt_varint_piece(11, opt_bool_code(v)) + rest;
        lemma_field_roundtrip(f, rest, ctx);
        lemma_field_parse_len(s, ctx);
        assert(s.skip(field_bytes(f).len() as int) =~= rest);
        assert(dt_fetch_req_apply(cur, f, ctx) == Some(DtFetchReqView { include_context: v, ..cur }));
    } else {
        assert(opt_varint_piece(11, opt_bool_code(v)) + rest =~= rest);
        assert((DtFetchReqView { include_context: v, ..cur }) == cur);
    }
}

/// A `DtFetchReq` written to bytes merges back into an empty one as itself,
/// with an allowance of at least 0.
#[verifier::rlimit(50)]
pub proof fn lemma_dt_fetch_req_reads_back(m: DtFetchReqView, ctx: nat)
    requires
        dt_fetch_req_bytes(m).len() < 0x1_0000_0000_0000_0000,
        ctx >= 0,
    ensures
        dt_fetch_req_merge(dt_fetch_req_empty(), dt_fetch_req_bytes(m), ctx) == Some(m),
{
    let p0 = bytes_piece(1, m.bucket);
    let p1 = bytes_piece(2, m.key);
    let p2 = bytes_piece(3, m.bucket_type);
    let p3 = opt_varint_piece(4, opt_u32_code(m.r));
    let p4 = opt_varint_piece(5, opt_u32_code(m.pr));
    let p5 = opt_varint_piece(6, opt_bool_code(m.basic_quorum));
    let p6 = opt_varint_piece(7, opt_bool_code(m.notfound_ok));
    let p7 = opt_varint_piece(8, opt_u32_code(m.timeout));
    let p8 = opt_varint_piece(9, opt_bool_code(m.sloppy_quorum));
    let p9 = opt_varint_piece(10, opt_u32_code(m.n_val));
    let p10 = opt_varint_piece(11, opt_bool_code(m.include_context));
    let s11 = Seq::<u8>::empty();
    let s10 = p10 + s11;
    let s9 = p9 + s10;
    let s8 = p8 + s9;
    let s7 = p7 + s8;
    let s6 = p6 + s7;
    let s5 = p5 + s6;
    let s4 = p4 + s5;
    let s3 = p3 + s4;
    let s2 = p2 + s3;
    let s1 = p1 + s2;
    let s0 = p0 + s1;
    assert(dt_fetch_req_bytes(m) == s0) by {
        lemma_concat_assoc(p0, p1, s2);
        lemma_concat_assoc(p0 + p1, p2, s3);
        lemma_concat_assoc(p0 + p1 + p2, p3, s4);
        lemma_concat_assoc(p0 + p1 + p2 + p3, p4, s5);
        lemma_concat_assoc(p0 + p1 + p2 + p3 + p4, p5, s6);
        lemma_concat_assoc(p0 + p1 + p2 + p3 + p4 + p5, p6, s7);
        lemma_concat_assoc(p0 + p1 + p2 + p3 + p4 + p5 + p6, p7, s8);
        lemma_concat_assoc(p0 + p1 + p2 + p3 + p4 + p5 + p6 + p7, p8, s9);
        lemma_concat_assoc(p0 + p1 + p2 + p3 + p4 + p5 + p6 + p7 + p8, p9, s10);
        lemma_concat_assoc(p0 + p1 + p2 + p3 + p4 + p5 + p6 + p7 + p8 + p9, p10, s11);
        assert(p0 + p1 + p2 + p3 + p4 + p5 + p6 + p7 + p8 + p9 + p10 + s11 =~= p0 + p1 + p2 + p3 + p4 + p5 + p6 + p7 + p8 + p9 + p10);
    }
    let m0 = dt_fetch_req_empty();
    let m1 = DtFetchReqView { bucket: m.bucket, ..m0 };
    let m2 = DtFetchReqView { key: m.key, ..m1 };
    let m3 = DtFetchReqView { bucket_type: m.bucket_type, ..m2 };
    let m4 = DtFetchReqView { r: m.r, ..m3 };
    let m5 = DtFetchReqView { pr: m.pr, ..m4 };
    let m6 = DtFetchReqView { basic_quorum: m.basic_quorum, ..m5 };
    let m7 = DtFetchReqView { notfound_ok: m.notfound_ok, ..m6 };
    let m8 = DtFetchReqView { timeout: m.timeout, ..m7 };
    let m9 = DtFetchReqView { sloppy_quorum: m.sloppy_quorum, ..m8 };
    let m10 = DtFetchReqView { n_val: m.n_val, ..m9 };
    let m11 = DtFetchReqView { include_context: m.include_context, ..m10 };
    lemma_dt_fetch_req_field_bucket(m0, m.bucket, s1, ctx);
    lemma_dt_fetch_req_field_key(m1, m.key, s2, ctx);
    lemma_dt_fetch_req_field_bucket_type(m2, m.bucket_type, s3, ctx);
    lemma_dt_fetch_req_field_r(m3, m.r, s4, ctx);
    lemma_dt_fetch_req_field_pr(m4, m.pr, s5, ctx);
    lemma_dt_fetch_req_field_basic_quorum(m5, m.basic_quorum, s6, ctx);
    lemma_dt_fetch_req_field_notfound_ok(m6, m.notfound_ok, s7, ctx);
    lemma_dt_fetch_req_field_timeout(m7, m.timeout, s8, ctx);
    lemma_dt_fetch_req_field_sloppy_quorum(m8, m.sloppy_quorum, s9, ctx);
    lemma_dt_fetch_req_field_n_val(m9, m.n_val, s10, ctx);
    lemma_dt_fetch_req_field_include_context(m10, m.include_context, s11, ctx);
    assert(m11 == m);
}

/// A `DtFetchReq` written to bytes reads back as itself.
pub proof fn lemma_dt_fetch_req_roundtrip(m: DtFetchReqView)
    requires
        dt_fetch_req_bytes(m).len() < 0x1_0000_0000_0000_0000,
    ensures
        dt_fetch_req_decode(dt_fetch_req_bytes(m)) == Some(m),
{
    lemma_dt_fetch_req_reads_back(m, 100);
}

proof fn lemma_dt_update_req_field_bucket(cur: DtUpdateReqView, v: Seq<u8>, rest: Seq<u8>, ctx: nat)
    requires
        cur.bucket == dt_update_req_empty().bucket,
        (bytes_piece(1, v) + rest).len() < 0x1_0000_0000_0000_0000,
        ctx >= 0,
    ensures
        dt_update_req_merge(cur, bytes_piece(1, v) + rest, ctx) == dt_update_req_merge((DtUpdateReqView { bucket: v, ..cur }), rest, ctx),
{
    let f = bytes_field(1, v);
    let s = bytes_piece(1, v) + rest;
    lemma_field_roundtrip(f, rest, ctx);
    lemma_field_parse_len(s, ctx);
    assert(s.skip(field_bytes(f).len() as int) =~= rest);
    assert(dt_update_req_apply(cur, f, ctx) == Some(DtUpdateReqView { bucket: v, ..cur }));
}

proof fn lemma_dt_update_req_field_key(cur: DtUpdateReqView, v: Option<Seq<u8>>, rest: Seq<u8>, ctx: nat)
    requires
        cur.key == dt_update_req_empty().key,
        (opt_bytes_piece(2, v) + rest).len() < 0x1_0000_0000_0000_0000,
        ctx >= 0,
    ensures
        dt_update_req_merge(cur, opt_bytes_piece(2, v) + rest, ctx) == dt_update_req_merge((DtUpdateReqView { key: v, ..cur }), rest, ctx),
{
    if v is Some {
        let f = bytes_field(2, v->0);
        let s = opt_bytes_piece(2, v) + rest;
        lemma_field_roundtrip(f, rest, ctx);
        lemma_field_parse_len(s, ctx);
        assert(s.skip(field_bytes(f).len() as int) =~= rest);
        assert(dt_update_req_apply(cur, f, ctx) == Some(DtUpdateReqView { key: v, ..cur }));
    } else {
        assert(opt_bytes_piece(2, v) + rest =~= rest);
        assert((DtUpdateReqView { key: v, ..cur }) == cur);
    }
}

proof fn lemma_dt_update_req_field_bucket_type(cur: DtUpdateReqView, v: Seq<u8>, rest: Seq<u8>, ctx: nat)
    requires
        cur.bucket_type == dt_update_req_empty().bucket_type,
        (bytes_piece(3, v) + rest).len() < 0x1_0000_0000_0000_0000,
        ctx >= 0,
    ensures
        dt_update_req_merge(cur, bytes_piece(3, v) + rest, ctx) == dt_update_req_merge((DtUpdateReqView { bucket_type: v, ..cur }), rest, ctx),
{
    let f = bytes_field(3, v);
    let s = bytes_piece(3, v) + rest;
    lemma_field_roundtrip(f, rest, ctx);
    lemma_field_parse_len(s, ctx);
    assert(s.skip(field_bytes(f).len() as int) =~= rest);
    assert(dt_update_req_apply(cur, f, ctx) == Some(DtUpdateReqView { bucket_type: v, ..cur }));
}

proof fn lemma_dt_update_req_field_context(cur: DtUpdateReqView, v: Option<Seq<u8>>, rest: Seq<u8>, ctx: nat)
    requires
        cur.context == dt_update_req_empty().context,
        (opt_bytes_piece(4, v) + rest).len() < 0x1_0000_0000_0000_0000,
        ctx >= 0,
    ensures
        dt_update_req_merge(cur, opt_bytes_piece(4, v) + rest, ctx) == dt_update_req_merge((DtUpdateReqView { context: v, ..cur }), rest, ctx),
{
    if v is Some {
        let f = bytes_field(4, v->0);
        let s = opt_bytes_piece(4, v) + rest;
        lemma_field_roundtrip(f, rest, ctx);
        lemma_field_parse_len(s, ctx);
        assert(s.skip(field_bytes(f).len() as int) =~= rest);
        assert(dt_update_req_apply(cur, f, ctx) == Some(DtUpdateReqView { context: v, ..cur }));
    } else {
        assert(opt_bytes_piece(4, v) + rest =~= rest);
        assert((DtUpdateReqView { context: v, ..cur }) == cur);
    }
}

proof fn lemma_dt_update_req_field_w(cur: DtUpdateReqView, v: Option<u32>, rest: Seq<u8>, ctx: nat)
    requires
        cur.w == dt_update_req_empty().w,
        (opt_varint_piece(6, opt_u32_code(v)) + rest).len() < 0x1_0000_0000_0000_0000,
        ctx >= 0,
    ensures
        dt_update_req_merge(cur, opt_varint_piece(6, opt_u32_code(v)) + rest, ctx) == dt_update_req_merge((DtUpdateReqView { w: v, ..cur }), rest, ctx),
{
    if v is Some {
        let f = varint_field(6, v->0 as u64);
        let s = opt_varint_piece(6, opt_u32_code(v)) + rest;
        lemma_field_roundtrip(f, rest, ctx);
        lemma_field_parse_len(s, ctx);
        assert(s.skip(field_bytes(f).len() as int) =~= rest);
        assert(dt_update_req_apply(cur, f, ctx) == Some(DtUpdateReqView { w: v, ..cur }));
    } else {
        assert(opt_varint_piece(6, opt_u32_code(v)) + rest =~= rest);
        assert((DtUpdateReqView { w: v, ..cur }) == cur);
    }
}

proof fn lemma_dt_update_req_field_dw(cur: DtUpdateReqView, v: Option<u32>, rest: Seq<u8>, ctx: nat)
    requires
        cur.dw == dt_update_req_empty().dw,
        (opt_varint_piece(7, opt_u32_code(v)) + rest).len() < 0x1_0000_0000_0000_0000,
        ctx >= 0,
    ensures
        dt_update_req_merge(cur, opt_varint_piece(7, opt_u32_code(v)) + rest, ctx) == dt_update_req_merge((DtUpdateReqView { dw: v, ..cur }), rest, ctx),
{
    if v is Some {
        let f = varint_field(7, v->0 as u64);
        let s = opt_varint_piece(7, opt_u32_code(v)) + rest;
        lemma_field_roundtrip(f, rest, ctx);
        lemma_field_parse_len(s, ctx);
        assert(s.skip(field_bytes(f).len() as int) =~= rest);
        assert(dt_update_req_apply(cur, f, ctx) == Some(DtUpdateReqView { dw: v, ..cur }));
    } else {
        assert(opt_varint_piece(7, opt_u32_code(v)) + rest =~= rest);
        assert((DtUpdateReqView { dw: v, ..cur }) == cur);
    }
}

proof fn lemma_dt_update_req_field_pw(cur: DtUpdateReqView, v: Option<u32>, rest: Seq<u8>, ctx: nat)
    requires
        cur.pw == dt_update_req_empty().pw,
        (opt_varint_piece(8, opt_u32_code(v)) + rest).len() < 0x1_0000_0000_0000_0000,
        ctx >= 0,
    ensures
        dt_update_req_merge(cur, opt_varint_piece(8, opt_u32_code(v)) + rest, ctx) == dt_update_req_merge((DtUpdateReqView { pw: v, ..cur }), rest, ctx),
{
    if v is Some {
        let f = varint_field(8, v->0 as u64);
        let s = opt_varint_piece(8, opt_u32_code(v)) + rest;
        lemma_field_roundtrip(f, rest, ctx);
        lemma_field_parse_len(s, ctx);
        assert(s.skip(field_bytes(f).len() as int) =~= rest);
        assert(dt_update_req_apply(cur, f, ctx) == Some(DtUpdateReqView { pw: v, ..cur }));
    } else {
        assert(opt_varint_piece(8, opt_u32_code(v)) + rest =~= rest);
        assert((DtUpdateReqView { pw: v, ..cur }) == cur);
    }
}

proof fn lemma_dt_update_req_field_return_body(cur: DtUpdateReqView, v: Option<bool>, rest: Seq<u8>, ctx: nat)
    requires
        cur.return_body == dt_update_req_empty().return_body,
        (opt_varint_piece(9, opt_bool_code(v)) + rest).len() < 0x1_0000_0000_0000_0000,
        ctx >= 0,
    ensures
        dt_update_req_merge(cur, opt_varint_piece(9, opt_bool_code(v)) + rest, ctx) == dt_update_req_merge((DtUpdateReqView { return_body: v, ..cur }), rest, ctx),
{
    if v is Some {
        let f = varint_field(9, bool_code(v->0));
        let s = opt_varint_piece(9, opt_bool_code(v)) + rest;
        lemma_field_roundtrip(f, rest, ctx);
        lemma_field_parse_len(s, ctx);
        assert(s.skip(field_bytes(f).len() as int) =~= rest);
        assert(dt_update_req_apply(cur, f, ctx) == Some(DtUpdateReqView { return_body: v, ..cur }));
    } else {
        assert(opt_varint_piece(9, opt_bool_code(v)) + rest =~= rest);
        assert((DtUpdateReqView { return_body: v, ..cur }) == cur);
    }
}

proof fn lemma_dt_update_req_field_timeout(cur: DtUpdateReqView, v: Option<u32>, rest: Seq<u8>, ctx: nat)
    requires
        cur.timeout == dt_update_req_empty().timeout,
        (opt_varint_piece(10, opt_u32_code(v)) + rest).len() < 0x1_0000_0000_0000_0000,
        ctx >= 0,
    ensures
        dt_update_req_merge(cur, opt_varint_piece(10, opt_u32_code(v)) + rest, ctx) == dt_update_req_merge((DtUpdateReqView { timeout: v, ..cur }), rest, ctx),
{
    if v is Some {
        let f = varint_field(10, v->0 as u64);
        let s = opt_varint_piece(10, opt_u32_code(v)) + rest;
        lemma_field_roundtrip(f, rest, ctx);
        lemma_field_parse_len(s, ctx);
        assert(s.skip(field_bytes(f).len() as int) =~= rest);
        assert(dt_update_req_apply(cur, f, ctx) == Some(DtUpdateReqView { timeout: v, ..cur }));
    } else {
        assert(opt_varint_piece(10, opt_u32_code(v)) + rest =~= rest);
        assert((DtUpdateReqView { timeout: v, ..cur }) == cur);
    }
}

proof fn lemma_dt_update_req_field_sloppy_quorum(cur: DtUpdateReqView, v: Option<bool>, rest: Seq<u8>, ctx: nat)
    requires
        cur.sloppy_quorum == dt_update_req_empty().sloppy_quorum,
        (opt_varint_piece(11, opt_bool_code(v)) + rest).len() < 0x1_0000_0000_0000_0000,
        ctx >= 0,
    ensures
        dt_update_req_merge(cur, opt_varint_piece(11, opt_bool_code(v)) + rest, ctx) == dt_update_req_merge((DtUpdateReqView { sloppy_quorum: v, ..cur }), rest, ctx),
{
    if v is Some {
        let f = varint_field(11, bool_code(v->0));
        let s = opt_varint_piece(11, opt_bool_code(v)) + rest;
        lemma_field_roundtrip(f, rest, ctx);
        lemma_field_parse_len(s, ctx);
        assert(s.skip(field_bytes(f).len() as int) =~= rest);
        assert(dt_update_req_apply(cur, f, ctx) == Some(DtUpdateReqView { sloppy_quorum: v, ..cur }));
    } else {
        assert(opt_varint_piece(11, opt_bool_code(v)) + rest =~= rest);
        assert((DtUpdateReqView { sloppy_quorum: v, ..cur }) == cur);
    }
}

proof fn lemma_dt_update_req_field_n_val(cur: DtUpdateReqView, v: Option<u32>, rest: Seq<u8>, ctx: nat)
    requires
        cur.n_val == dt_update_req_empty().n_val,
        (opt_varint_piece(12, opt_u32_code(v)) + rest).len() < 0x1_0000_0000_0000_0000,
        ctx >= 0,
    ensures
        dt_update_req_merge(cur, opt_varint_piece(12, opt_u32_code(v)) + rest, ctx) == dt_update_req_merge((DtUpdateReqView { n_val: v, ..cur }), rest, ctx),
{
    if v is Some {
        let f = varint_field(12, v->0 as u64);
        let s = opt_varint_piece(12, opt_u32_code(v)) + rest;
        lemma_field_roundtrip(f, rest, ctx);
        lemma_field_parse_len(s, ctx);
        assert(s.skip(field_bytes(f).len() as int) =~= rest);
        assert(dt_update_req_apply(cur, f, ctx) == Some(DtUpdateReqView { n_val: v, ..cur }));
    } else {
        assert(opt_varint_piece(12, opt_u32_code(v)) + rest =~= rest);
        assert((DtUpdateReqView { n_val: v, ..cur }) == cur);
    }
}

proof fn lemma_dt_update_req_field_include_context(cur: DtUpdateReqView, v: Option<bool>, rest: Seq<u8>, ctx: nat)
    requires
        cur.include_context == dt_update_req_empty().include_context,
        (opt_varint_piece(13, opt_bool_code(v)) + rest).len() < 0x1_0000_0000_0000_0000,
        ctx >= 0,
    ensures
        dt_update_req_merge(cur, opt_varint_piece(13, opt_bool_code(v)) + rest, ctx) == dt_update_req_merge((DtUpdateReqView { include_context: v, ..cur }), rest, ctx),
{
    if v is Some {
        let f = varint_field(13, bool_code(v->0));
        let s = opt_varint_piece(13, opt_bool_code(v)) + rest;
        lemma_field_roundtrip(f, rest, ctx);
        lemma_field_parse_len(s, ctx);
        assert(s.skip(field_bytes(f).len() as int) =~= rest);
        assert(dt_update_req_apply(cur, f, ctx) == Some(DtUpdateReqView { include_context: v, ..cur }));
    } else {
        assert(opt_varint_piece(13, opt_bool_code(v)) + rest =~= rest);
        assert((DtUpdateReqView { include_context: v, ..cur }) == cur);
    }
}

/// A `DtUpdateReq` written to bytes merges back into an empty one as itself,
/// with an allowance of at least 0.
#[verifier::rlimit(50)]
pub proof fn lemma_dt_update_req_reads_back(m: DtUpdateReqView, ctx: nat)
    requires
        dt_update_req_bytes(m).len() < 0x1_0000_0000_0000_0000,
        ctx >= 0,
    ensures
        dt_update_req_merge(dt_update_req_empty(), dt_update_req_bytes(m), ctx) == Some(m),
{
    let p0 = bytes_piece(1, m.bucket);
    let p1 = opt_bytes_piece(2, m.key);
    let p2 = bytes_piece(3, m.bucket_type);
    let p3 = opt_bytes_piece(4, m.context);
    let p4 = opt_varint_piece(6, opt_u32_code(m.w));
    let p5 = opt_varint_piece(7, opt_u32_code(m.dw));
    let p6 = opt_varint_piece(8, opt_u32_code(m.pw));
    let p7 = opt_varint_piece(9, opt_bool_code(m.return_body));
    let p8 = opt_varint_piece(10, opt_u32_code(m.timeout));
    let p9 = opt_varint_piece(11, opt_bool_code(m.sloppy_quorum));
    let p10 = opt_varint_piece(12, opt_u32_code(m.n_val));
    let p11 = opt_varint_piece(13, opt_bool_code(m.include_context));
    let s12 = Seq::<u8>::empty();
    let s11 = p11 + s12;
    let s10 = p10 + s11;
    let s9 = p9 + s10;
    let s8 = p8 + s9;
    let s7 = p7 + s8;
    let s6 = p6 + s7;
    let s5 = p5 + s6;
    let s4 = p4 + s5;
    let s3 = p3 + s4;
    let s2 = p2 + s3;
    let s1 = p1 + s2;
    let s0 = p0 + s1;
    assert(dt_update_req_bytes(m) == s0) by {
        lemma_concat_assoc(p0, p1, s2);
        lemma_concat_assoc(p0 + p1, p2, s3);
        lemma_concat_assoc(p0 + p1 + p2, p3, s4);
        lemma_concat_assoc(p0 + p1 + p2 + p3, p4, s5);
        lemma_concat_assoc(p0 + p1 + p2 + p3 + p4, p5, s6);
        lemma_concat_assoc(p0 + p1 + p2 + p3 + p4 + p5, p6, s7);
        lemma_concat_assoc(p0 + p1 + p2 + p3 + p4 + p5 + p6, p7, s8);
        lemma_concat_assoc(p0 + p1 + p2 + p3 + p4 + p5 + p6 + p7, p8, s9);
        lemma_concat_assoc(p0 + p1 + p2 + p3 + p4 + p5 + p6 + p7 + p8, p9, s10);
        lemma_concat_assoc(p0 + p1 + p2 + p3 + p4 + p5 + p6 + p7 + p8 + p9, p10, s11);
        lemma_concat_assoc(p0 + p1 + p2 + p3 + p4 + p5 + p6 + p7 + p8 + p9 + p10, p11, s12);
        assert(p0 + p1 + p2 + p3 + p4 + p5 + p6 + p7 + p8 + p9 + p10 + p11 + s12 =~= p0 + p1 + p2 + p3 + p4 + p5 + p6 + p7 + p8 + p9 + p10 + p11);
    }
    let m0 = dt_update_req_empty();
    let m1 = DtUpdateReqView { bucket: m.bucket, ..m0 };
    let m2 = DtUpdateReqView { key: m.key, ..m1 };
    let m3 = DtUpdateReqView { bucket_type: m.bucket_type, ..m2 };
    let m4 = DtUpdateReqView { context: m.context, ..m3 };
    let m5 = DtUpdateReqView { w: m.w, ..m4 };
    let m6 = DtUpdateReqView { dw: m.dw, ..m5 };
    let m7 = DtUpdateReqView { pw: m.pw, ..m6 };
    let m8 = DtUpdateReqView { return_body: m.return_body, ..m7 };
    let m9 = DtUpdateReqView { timeout: m.timeout, ..m8 };
    let m10 = DtUpdateReqView { sloppy_quorum: m.sloppy_quorum, ..m9 };
    let m11 = DtUpdateReqView { n_val: m.n_val, ..m10 };
    let m12 = DtUpdateReqView { include_context: m.include_context, ..m11 };
    lemma_dt_update_req_field_bucket(m0, m.bucket, s1, ctx);
    lemma_dt_update_req_field_key(m1, m.key, s2, ctx);
    lemma_dt_update_req_field_bucket_type(m2, m.bucket_type, s3, ctx);
    lemma_dt_update_req_field_context(m3, m.context, s4, ctx);
    lemma_dt_update_req_field_w(m4, m.w, s5, ctx);
    lemma_dt_update_req_field_dw(m5, m.dw, s6, ctx);
    lemma_dt_update_req_field_pw(m6, m.pw, s7, ctx);
    lemma_dt_update_req_field_return_body(m7, m.return_body, s8, ctx);
    lemma_dt_update_req_field_timeout(m8, m.timeout, s9, ctx);
    lemma_dt_update_req_field_sloppy_quorum(m9, m.sloppy_quorum, s10, ctx);
    lemma_dt_update_req_field_n_val(m10, m.n_val, s11, ctx);
    lemma_dt_update_req_field_include_context(m11, m.include_context, s12, ctx);
    assert(m12 == m);
}

/// A `DtUpdateReq` written to bytes reads back as itself.
pub proof fn lemma_dt_update_req_roundtrip(m: DtUpdateReqView)
    requires
        dt_update_req_bytes(m).len() < 0x1_0000_0000_0000_0000,
    ensures
        dt_update_req_decode(dt_update_req_bytes(m)) == Some(m),
{
    lemma_dt_update_req_reads_back(m, 100);
}

} // verus!
