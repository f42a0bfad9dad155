//! The bytes of the data type messages that hold maps, which nest, and
//! proofs that they read back: each map entry, value and fetch reply written
//! to bytes reads back as itself where its maps nest within the allowance.
use crate::proto::dt::{
    DtFetchRespView, DtValueView, MapEntryView, MapFieldView, dt_fetch_resp_apply, dt_fetch_resp_decode,
    dt_fetch_resp_empty, dt_fetch_resp_merge, dt_value_apply, dt_value_empty, dt_value_merge,
    lemma_map_field_reads_back, map_entry_apply, map_entry_empty, map_entry_merge,
    map_field_bytes,
};
use crate::wire::{
    bool_code, bytes_field, bytes_piece, field_bytes, i32_code, lemma_concat_assoc,
    lemma_field_parse_len, lemma_field_roundtrip, lemma_i32_code_roundtrip,
    lemma_zigzag_code_roundtrip, opt_bool_code, opt_bytes_piece, opt_varint_piece,
    opt_zigzag_code, rep_bytes_piece, varint_field, varint_piece, zigzag_code,
};
use vstd::prelude::*;

verus! {

/// The bytes of a `MapEntry`: its fields in the order of their tags, the
/// entries of a nested map among them.
pub open spec fn map_entry_bytes(m: MapEntryView) -> Seq<u8>
    decreases m,
{
    bytes_piece(1, map_field_bytes(m.field))
        + opt_varint_piece(2, opt_zigzag_code(m.counter_value))
        + rep_bytes_piece(3, m.set_value)
        + opt_bytes_piece(4, m.register_value)
        + opt_varint_piece(5, opt_bool_code(m.flag_value))
        + rep_bytes_piece(6, map_entries_bytes(m.map_value))
}

/// The bytes of each of a sequence of `MapEntry`, in order.
pub open spec fn map_entries_bytes(s: Seq<MapEntryView>) -> Seq<Seq<u8>>
    decreases s,
{
    if s.len() == 0 {
        Seq::empty()
    } else {
        map_entries_bytes(s.subrange(0, s.len() - 1)).push(map_entry_bytes(s[s.len() - 1]))
    }
}

/// The allowance that reading a `MapEntry` back needs: one level for its
/// field's name and type, and one more than its most deeply nested entry.
pub open spec fn map_entry_need(m: MapEntryView) -> nat
    decreases m,
{
    1 + map_entries_need(m.map_value)
}

/// The largest allowance that one of a sequence of `MapEntry` needs.
pub open spec fn map_entries_need(s: Seq<MapEntryView>) -> nat
    decreases s,
{
    if s.len() == 0 {
        0
    } else {
        let a = map_entries_need(s.subrange(0, s.len() - 1));
        let b = map_entry_need(s[s.len() - 1]);
        if a >= b {
            a
        } else {
            b
        }
    }
}

/// The bytes of a `DtValue`: its fields in the order of their tags.
pub open spec fn dt_value_bytes(m: DtValueView) -> Seq<u8> {
    opt_varint_piece(1, opt_zigzag_code(m.counter_value))
        + rep_bytes_piece(2, m.set_value)
        + rep_bytes_piece(3, map_entries_bytes(m.map_value))
        + opt_varint_piece(4, m.hll_value)
        + rep_bytes_piece(5, m.gset_value)
}

/// The allowance that reading a `DtValue` back needs: one more than its
/// most deeply nested map entry.
pub open spec fn dt_value_need(m: DtValueView) -> nat {
    1 + map_entries_need(m.map_value)
}

/// The bytes of a `DtFetchResp`: its fields in the order of their tags.
pub open spec fn dt_fetch_resp_bytes(m: DtFetchRespView) -> Seq<u8> {
    opt_bytes_piece(1, m.context)
        + varint_piece(2, i32_code(m.data_type))
        + opt_bytes_piece(3, match m.value {
            Some(x) => Some(dt_value_bytes(x)),
            None => None,
        })
}

/// The allowance that reading a `DtFetchResp` back needs.
pub open spec fn dt_fetch_resp_need(m: DtFetchRespView) -> nat {
    match m.value {
        Some(x) => 1 + dt_value_need(x),
        None => 0,
    }
}

proof fn lemma_map_entry_field_field(cur: MapEntryView, v: MapFieldView, rest: Seq<u8>, ctx: nat)
    requires
        cur.field == map_entry_empty().field,
        (bytes_piece(1, map_field_bytes(v)) + rest).len() < 0x1_0000_0000_0000_0000,
        ctx >= 1,
    ensures
        map_entry_merge(cur, bytes_piece(1, map_field_bytes(v)) + rest, ctx) == map_entry_merge((MapEntryView { field: v, ..cur }), rest, ctx),
{
    let f = bytes_field(1, map_field_bytes(v));
    let s = bytes_piece(1, map_field_bytes(v)) + rest;
    lemma_field_roundtrip(f, rest, ctx);
    lemma_field_parse_len(s, ctx);
    assert(s.skip(field_bytes(f).len() as int) =~= rest);
    lemma_map_field_reads_back(v, (ctx - 1) as nat);
    assert(map_entry_apply(cur, f, ctx) == Some(MapEntryView { field: v, ..cur }));
}

proof fn lemma_map_entry_field_counter_value(cur: MapEntryView, v: Option<i64>, rest: Seq<u8>, ctx: nat)
    requires
        cur.counter_value == map_entry_empty().counter_value,
        (opt_varint_piece(2, opt_zigzag_code(v)) + rest).len() < 0x1_0000_0000_0000_0000,
    ensures
        map_entry_merge(cur, opt_varint_piece(2, opt_zigzag_code(v)) + rest, ctx) == map_entry_merge((MapEntryView { counter_value: v, ..cur }), rest, ctx),
{
    if v is Some {
        let f = varint_field(2, zigzag_code(v->0));
        let s = opt_varint_piece(2, opt_zigzag_code(v)) + rest;
        lemma_field_roundtrip(f, rest, ctx);
        lemma_field_parse_len(s, ctx);
        assert(s.skip(field_bytes(f).len() as int) =~= rest);
        lemma_zigzag_code_roundtrip(v->0);
        assert(map_entry_apply(cur, f, ctx) == Some(MapEntryView { counter_value: v, ..cur }));
    } else {
        assert(opt_varint_piece(2, opt_zigzag_code(v)) + rest =~= rest);
        assert((MapEntryView { counter_value: v, ..cur }) == cur);
    }
}

proof fn lemma_map_entry_rep_set_value(m0: MapEntryView, s: Seq<Seq<u8>>, rest: Seq<u8>, ctx: nat)
    requires
        (rep_bytes_piece(3, s) + rest).len() < 0x1_0000_0000_0000_0000,
    ensures
        map_entry_merge(m0, rep_bytes_piece(3, s) + rest, ctx) == map_entry_merge((MapEntryView { set_value: m0.set_value + s, ..m0 }), rest, ctx),
    decreases s,
{
    let bs = s;
    if s.len() == 0 {
        assert(rep_bytes_piece(3, bs) + rest =~= rest);
        assert(m0.set_value + s =~= m0.set_value);
        assert((MapEntryView { set_value: m0.set_value + s, ..m0 }) == m0);
    } else {
        let s2 = s.subrange(0, s.len() - 1);
        let x = s[s.len() - 1];
        let f = bytes_field(3, x);
        let bs2 = s2;
        assert(bs.drop_last() =~= bs2);
        assert(rep_bytes_piece(3, bs) + rest =~= rep_bytes_piece(3, bs2) + (field_bytes(f) + rest));
        lemma_map_entry_rep_set_value(m0, s2, field_bytes(f) + rest, ctx);
        let m1 = MapEntryView { set_value: m0.set_value + s2, ..m0 };
        let tail = field_bytes(f) + rest;
        lemma_field_roundtrip(f, rest, ctx);
        lemma_field_parse_len(tail, ctx);
        assert(tail.skip(field_bytes(f).len() as int) =~= rest);
        assert(m1.set_value.push(x) =~= m0.set_value + s);
        assert(map_entry_apply(m1, f, ctx) == Some(MapEntryView { set_value: m0.set_value + s, ..m0 }));
    }
}

proof fn lemma_map_entry_field_register_value(cur: MapEntryView, v: Option<Seq<u8>>, rest: Seq<u8>, ctx: nat)
    requires
        cur.register_value == map_entry_empty().register_value,
        (opt_bytes_piece(4, v) + rest).len() < 0x1_0000_0000_0000_0000,
    ensures
        map_entry_merge(cur, opt_bytes_piece(4, v) + rest, ctx) == map_entry_merge((MapEntryView { register_value: v, ..cur }), rest, ctx),
{
    if v is Some {
        let f = bytes_field(4, v->0);
        let s = opt_bytes_piece(4, v) + rest;
        lemma_field_roundtrip(f, rest, ctx);
        lemma_field_parse_len(s, ctx);
        assert(s.skip(field_bytes(f).len() as int) =~= rest);
        assert(map_entry_apply(cur, f, ctx) == Some(MapEntryView { register_value: v, ..cur }));
    } else {
        assert(opt_bytes_piece(4, v) + rest =~= rest);
        assert((MapEntryView { register_value: v, ..cur }) == cur);
    }
}

proof fn lemma_map_entry_field_flag_value(cur: MapEntryView, v: Option<bool>, rest: Seq<u8>, ctx: nat)
    requires
        cur.flag_value == map_entry_empty().flag_value,
        (opt_varint_piece(5, opt_bool_code(v)) + rest).len() < 0x1_0000_0000_0000_0000,
    ensures
        map_entry_merge(cur, opt_varint_piece(5, opt_bool_code(v)) + rest, ctx) == map_entry_merge((MapEntryView { flag_value: v, ..cur }), rest, ctx),
{
    if v is Some {
        let f = varint_field(5, bool_code(v->0));
        let s = opt_varint_piece(5, opt_bool_code(v)) + rest;
        lemma_field_roundtrip(f, rest, ctx);
        lemma_field_parse_len(s, ctx);
        assert(s.skip(field_bytes(f).len() as int) =~= rest);
        assert(map_entry_apply(cur, f, ctx) == Some(MapEntryView { flag_value: v, ..cur }));
    } else {
        assert(opt_varint_piece(5, opt_bool_code(v)) + rest =~= rest);
        assert((MapEntryView { flag_value: v, ..cur }) == cur);
    }
}

proof fn lemma_map_entry_rep_map_value(m0: MapEntryView, s: Seq<MapEntryView>, rest: Seq<u8>, ctx: nat)
    requires
        (rep_bytes_piece(6, map_entries_bytes(s)) + rest).len() < 0x1_0000_0000_0000_0000,
        ctx >= 1 + map_entries_need(s),
    ensures
        map_entry_merge(m0, rep_bytes_piece(6, map_entries_bytes(s)) + rest, ctx) == map_entry_merge((MapEntryView { map_value: m0.map_value + s, ..m0 }), rest, ctx),
    decreases s,
{
    let bs = map_entries_bytes(s);
    if s.len() == 0 {
        assert(rep_bytes_piece(6, bs) + rest =~= rest);
        assert(m0.map_value + s =~= m0.map_value);
        assert((MapEntryView { map_value: m0.map_value + s, ..m0 }) == m0);
    } else {
        let s2 = s.subrange(0, s.len() - 1);
        let x = s[s.len() - 1];
        let f = bytes_field(6, map_entry_bytes(x));
        let bs2 = map_entries_bytes(s2);
        assert(bs.drop_last() =~= bs2);
        assert(rep_bytes_piece(6, bs) + rest =~= rep_bytes_piece(6, bs2) + (field_bytes(f) + rest));
        lemma_map_entry_rep_map_value(m0, s2, field_bytes(f) + rest, ctx);
        let m1 = MapEntryView { map_value: m0.map_value + s2, ..m0 };
        let tail = field_bytes(f) + rest;
        lemma_field_roundtrip(f, rest, ctx);
        lemma_field_parse_len(tail, ctx);
        assert(tail.skip(field_bytes(f).len() as int) =~= rest);
        lemma_map_entry_reads_back(x, (ctx - 1) as nat);
        assert(m1.map_value.push(x) =~= m0.map_value + s);
        assert(map_entry_apply(m1, f, ctx) == Some(MapEntryView { map_value: m0.map_value + s, ..m0 }));
    }
}

/// A `MapEntry` written to bytes merges back into an empty one as itself,
/// given the allowance that its nesting needs.
#[verifier::rlimit(50)]
pub proof fn lemma_map_entry_reads_back(m: MapEntryView, ctx: nat)
    requires
        map_entry_bytes(m).len() < 0x1_0000_0000_0000_0000,
        ctx >= map_entry_need(m),
    ensures
        map_entry_merge(map_entry_empty(), map_entry_bytes(m), ctx) == Some(m),
    decreases m,
{
    let p0 = bytes_piece(1, map_field_bytes(m.field));
    let p1 = opt_varint_piece(2, opt_zigzag_code(m.counter_value));
    let p2 = rep_bytes_piece(3, m.set_value);
    let p3 = opt_bytes_piece(4, m.register_value);
    let p4 = opt_varint_piece(5, opt_bool_code(m.flag_value));
    let p5 = rep_bytes_piece(6, map_entries_bytes(m.map_value));
    let s6 = Seq::<u8>::empty();
    let s5 = p5 + s6;
    let s4 = p4 + s5;
    let s3 = p3 + s4;
    let s2 = p2 + s3;
    let s1 = p1 + s2;
    let s0 = p0 + s1;
    assert(map_entry_bytes(m) == s0) by {
        lemma_concat_assoc(p0, p1, s2);
        lemma_concat_assoc(p0 + p1, p2, s3);
        lemma_concat_assoc(p0 + p1 + p2, p3, s4);
        lemma_concat_assoc(p0 + p1 + p2 + p3, p4, s5);
        lemma_concat_assoc(p0 + p1 + p2 + p3 + p4, p5, s6);
        assert(p0 + p1 + p2 + p3 + p4 + p5 + s6 =~= p0 + p1 + p2 + p3 + p4 + p5);
    }
    let m0 = map_entry_empty();
    let m1 = MapEntryView { field: m.field, ..m0 };
    let m2 = MapEntryView { counter_value: m.counter_value, ..m1 };
    let m3 = MapEntryView { set_value: m.set_value, ..m2 };
    let m4 = MapEntryView { register_value: m.register_value, ..m3 };
    let m5 = MapEntryView { flag_value: m.flag_value, ..m4 };
    let m6 = MapEntryView { map_value: m.map_value, ..m5 };
    lemma_map_entry_field_field(m0, m.field, s1, ctx);
    lemma_map_entry_field_counter_value(m1, m.counter_value, s2, ctx);
    lemma_map_entry_rep_set_value(m2, m.set_value, s3, ctx);
    assert(m2.set_value + m.set_value =~= m.set_value);
    lemma_map_entry_field_register_value(m3, m.register_value, s4, ctx);
    lemma_map_entry_field_flag_value(m4, m.flag_value, s5, ctx);
    lemma_map_entry_rep_map_value(m5, m.map_value, s6, ctx);
    assert(m5.map_value + m.map_value =~= m.map_value);
    assert(m6 == m);
}
proof fn lemma_dt_value_field_counter_value(cur: DtValueView, v: Option<i64>, rest: Seq<u8>, ctx: nat)
    requires
        cur.counter_value == dt_value_empty().counter_value,
        (opt_varint_piece(1, opt_zigzag_code(v)) + rest).len() < 0x1_0000_0000_0000_0000,
    ensures
        dt_value_merge(cur, opt_varint_piece(1, opt_zigzag_code(v)) + rest, ctx) == dt_value_merge((DtValueView { counter_value: v, ..cur }), rest, ctx),
{
    if v is Some {
        let f = varint_field(1, zigzag_code(v->0));
        let s = opt_varint_piece(1, opt_zigzag_code(v)) + rest;
        lemma_field_roundtrip(f, rest, ctx);
        lemma_field_parse_len(s, ctx);
        assert(s.skip(field_bytes(f).len() as int) =~= rest);
        lemma_zigzag_code_roundtrip(v->0);
        assert(dt_value_apply(cur, f, ctx) == Some(DtValueView { counter_value: v, ..cur }));
    } else {
        assert(opt_varint_piece(1, opt_zigzag_code(v)) + rest =~= rest);
        assert((DtValueView { counter_value: v, ..cur }) == cur);
    }
}

proof fn lemma_dt_value_rep_set_value(m0: DtValueView, s: Seq<Seq<u8>>, rest: Seq<u8>, ctx: nat)
    requires
        (rep_bytes_piece(2, s) + rest).len() < 0x1_0000_0000_0000_0000,
    ensures
        dt_value_merge(m0, rep_bytes_piece(2, s) + rest, ctx) == dt_value_merge((DtValueView { set_value: m0.set_value + s, ..m0 }), rest, ctx),
    decreases s,
{
    let bs = s;
    if s.len() == 0 {
        assert(rep_bytes_piece(2, bs) + rest =~= rest);
        assert(m0.set_value + s =~= m0.set_value);
        assert((DtValueView { set_value: m0.set_value + s, ..m0 }) == m0);
    } else {
        let s2 = s.subrange(0, s.len() - 1);
        let x = s[s.len() - 1];
        let f = bytes_field(2, x);
        let bs2 = s2;
        assert(bs.drop_last() =~= bs2);
        assert(rep_bytes_piece(2, bs) + rest =~= rep_bytes_piece(2, bs2) + (field_bytes(f) + rest));
        lemma_dt_value_rep_set_value(m0, s2, field_bytes(f) + rest, ctx);
        let m1 = DtValueView { set_value: m0.set_value + s2, ..m0 };
        let tail = field_bytes(f) + rest;
        lemma_field_roundtrip(f, rest, ctx);
        lemma_field_parse_len(tail, ctx);
        assert(tail.skip(field_bytes(f).len() as int) =~= rest);
        assert(m1.set_value.push(x) =~= m0.set_value + s);
        assert(dt_value_apply(m1, f, ctx) == Some(DtValueView { set_value: m0.set_value + s, ..m0 }));
    }
}

proof fn lemma_dt_value_rep_map_value(m0: DtValueView, s: Seq<MapEntryView>, rest: Seq<u8>, ctx: nat)
    requires
        (rep_bytes_piece(3, map_entries_bytes(s)) + rest).len() < 0x1_0000_0000_0000_0000,
        ctx >= 1 + map_entries_need(s),
    ensures
        dt_value_merge(m0, rep_bytes_piece(3, map_entries_bytes(s)) + rest, ctx) == dt_value_merge((DtValueView { map_value: m0.map_value + s, ..m0 }), rest, ctx),
    decreases s,
{
    let bs = map_entries_bytes(s);
    if s.len() == 0 {
        assert(rep_bytes_piece(3, bs) + rest =~= rest);
        assert(m0.map_value + s =~= m0.map_value);
        assert((DtValueView { map_value: m0.map_value + s, ..m0 }) == m0);
    } else {
        let s2 = s.subrange(0, s.len() - 1);
        let x = s[s.len() - 1];
        let f = bytes_field(3, map_entry_bytes(x));
        let bs2 = map_entries_bytes(s2);
        assert(bs.drop_last() =~= bs2);
        assert(rep_bytes_piece(3, bs) + rest =~= rep_bytes_piece(3, bs2) + (field_bytes(f) + rest));
        lemma_dt_value_rep_map_value(m0, s2, field_bytes(f) + rest, ctx);
        let m1 = DtValueView { map_value: m0.map_value + s2, ..m0 };
        let tail = field_bytes(f) + rest;
        lemma_field_roundtrip(f, rest, ctx);
        lemma_field_parse_len(tail, ctx);
        assert(tail.skip(field_bytes(f).len() as int) =~= rest);
        lemma_map_entry_reads_back(x, (ctx - 1) as nat);
        assert(m1.map_value.push(x) =~= m0.map_value + s);
        assert(dt_value_apply(m1, f, ctx) == Some(DtValueView { map_value: m0.map_value + s, ..m0 }));
    }
}

proof fn lemma_dt_value_field_hll_value(cur: DtValueView, v: Option<u64>, rest: Seq<u8>, ctx: nat)
    requires
        cur.hll_value == dt_value_empty().hll_value,
        (opt_varint_piece(4, v) + rest).len() < 0x1_0000_0000_0000_0000,
    ensures
        dt_value_merge(cur, opt_varint_piece(4, v) + rest, ctx) == dt_value_merge((DtValueView { hll_value: v, ..cur }), rest, ctx),
{
    if v is Some {
        let f = varint_field(4, v->0);
        let s = opt_varint_piece(4, v) + rest;
        lemma_field_roundtrip(f, rest, ctx);
        lemma_field_parse_len(s, ctx);
        assert(s.skip(field_bytes(f).len() as int) =~= rest);
        assert(dt_value_apply(cur, f, ctx) == Some(DtValueView { hll_value: v, ..cur }));
    } else {
        assert(opt_varint_piece(4, v) + rest =~= rest);
        assert((DtValueView { hll_value: v, ..cur }) == cur);
    }
}

proof fn lemma_dt_value_rep_gset_value(m0: DtValueView, s: Seq<Seq<u8>>, rest: Seq<u8>, ctx: nat)
    requires
        (rep_bytes_piece(5, s) + rest).len() < 0x1_0000_0000_0000_0000,
    ensures
        dt_value_merge(m0, rep_bytes_piece(5, s) + rest, ctx) == dt_value_merge((DtValueView { gset_value: m0.gset_value + s, ..m0 }), rest, ctx),
    decreases s,
{
    let bs = s;
    if s.len() == 0 {
        assert(rep_bytes_piece(5, bs) + rest =~= rest);
        assert(m0.gset_value + s =~= m0.gset_value);
        assert((DtValueView { gset_value: m0.gset_value + s, ..m0 }) == m0);
    } else {
        let s2 = s.subrange(0, s.len() - 1);
        let x = s[s.len() - 1];
        let f = bytes_field(5, x);
        let bs2 = s2;
        assert(bs.drop_last() =~= bs2);
        assert(rep_bytes_piece(5, bs) + rest =~= rep_bytes_piece(5, bs2) + (field_bytes(f) + rest));
        lemma_dt_value_rep_gset_value(m0, s2, field_bytes(f) + rest, ctx);
        let m1 = DtValueView { gset_value: m0.gset_value + s2, ..m0 };
        let tail = field_bytes(f) + rest;
        lemma_field_roundtrip(f, rest, ctx);
        lemma_field_parse_len(tail, ctx);
        assert(tail.skip(field_bytes(f).len() as int) =~= rest);
        assert(m1.gset_value.push(x) =~= m0.gset_value + s);
        assert(dt_value_apply(m1, f, ctx) == Some(DtValueView { gset_value: m0.gset_value + s, ..m0 }));
    }
}

/// A `DtValue` written to bytes merges back into an empty one as itself,
/// given the allowance that its nesting needs.
#[verifier::rlimit(50)]
pub proof fn lemma_dt_value_reads_back(m: DtValueView, ctx: nat)
    requires
        dt_value_bytes(m).len() < 0x1_0000_0000_0000_0000,
        ctx >= dt_value_need(m),
    ensures
        dt_value_merge(dt_value_empty(), dt_value_bytes(m), ctx) == Some(m),
{
    let p0 = opt_varint_piece(1, opt_zigzag_code(m.counter_value));
    let p1 = rep_bytes_piece(2, m.set_value);
    let p2 = rep_bytes_piece(3, map_entries_bytes(m.map_value));
    let p3 = opt_varint_piece(4, m.hll_value);
    let p4 = rep_bytes_piece(5, m.gset_value);
    let s5 = Seq::<u8>::empty();
    let s4 = p4 + s5;
    let s3 = p3 + s4;
    let s2 = p2 + s3;
    let s1 = p1 + s2;
    let s0 = p0 + s1;
    assert(dt_value_bytes(m) == s0) by {
        lemma_concat_assoc(p0, p1, s2);
        lemma_concat_assoc(p0 + p1, p2, s3);
        lemma_concat_assoc(p0 + p1 + p2, p3, s4);
        lemma_concat_assoc(p0 + p1 + p2 + p3, p4, s5);
        assert(p0 + p1 + p2 + p3 + p4 + s5 =~= p0 + p1 + p2 + p3 + p4);
    }
    let m0 = dt_value_empty();
    let m1 = DtValueView { counter_value: m.counter_value, ..m0 };
    let m2 = DtValueView { set_value: m.set_value, ..m1 };
    let m3 = DtValueView { map_value: m.map_value, ..m2 };
    let m4 = DtValueView { hll_value: m.hll_value, ..m3 };
    let m5 = DtValueView { gset_value: m.gset_value, ..m4 };
    lemma_dt_value_field_counter_value(m0, m.counter_value, s1, ctx);
    lemma_dt_value_rep_set_value(m1, m.set_value, s2, ctx);
    assert(m1.set_value + m.set_value =~= m.set_value);
    lemma_dt_value_rep_map_value(m2, m.map_value, s3, ctx);
    assert(m2.map_value + m.map_value =~= m.map_value);
    lemma_dt_value_field_hll_value(m3, m.hll_value, s4, ctx);
    lemma_dt_value_rep_gset_value(m4, m.gset_value, s5, ctx);
    assert(m4.gset_value + m.gset_value =~= m.gset_value);
    assert(m5 == m);
}
proof fn lemma_dt_fetch_resp_field_context(cur: DtFetchRespView, v: Option<Seq<u8>>, rest: Seq<u8>, ctx: nat)
    requires
        cur.context == dt_fetch_resp_empty().context,
        (opt_bytes_piece(1, v) + rest).len() < 0x1_0000_0000_0000_0000,
    ensures
        dt_fetch_resp_merge(cur, opt_bytes_piece(1, v) + rest, ctx) == dt_fetch_resp_merge((DtFetchRespView { context: v, ..cur }), rest, ctx),
{
    if v is Some {
        let f = bytes_field(1, v->0);
        let s = opt_bytes_piece(1, v) + rest;
        lemma_field_roundtrip(f, rest, ctx);
        lemma_field_parse_len(s, ctx);
        assert(s.skip(field_bytes(f).len() as int) =~= rest);
        assert(dt_fetch_resp_apply(cur, f, ctx) == Some(DtFetchRespView { context: v, ..cur }));
    } else {
        assert(opt_bytes_piece(1, v) + rest =~= rest);
        assert((DtFetchRespView { context: v, ..cur }) == cur);
    }
}

proof fn lemma_dt_fetch_resp_field_data_type(cur: DtFetchRespView, v: i32, rest: Seq<u8>, ctx: nat)
    requires
        (varint_piece(2, i32_code(v)) + rest).len() < 0x1_0000_0000_0000_0000,
    ensures
        dt_fetch_resp_merge(cur, varint_piece(2, i32_code(v)) + rest, ctx) == dt_fetch_resp_merge((DtFetchRespView { data_type: v, ..cur }), rest, ctx),
{
    let f = varint_field(2, i32_code(v));
    let s = varint_piece(2, i32_code(v)) + rest;
    lemma_field_roundtrip(f, rest, ctx);
    lemma_field_parse_len(s, ctx);
    assert(s.skip(field_bytes(f).len() as int) =~= rest);
    lemma_i32_code_roundtrip(v);
    assert(dt_fetch_resp_apply(cur, f, ctx) == Some(DtFetchRespView { data_type: v, ..cur }));
}

proof fn lemma_dt_fetch_resp_field_value(cur: DtFetchRespView, v: Option<DtValueView>, rest: Seq<u8>, ctx: nat)
    requires
        cur.value == dt_fetch_resp_empty().value,
        (opt_bytes_piece(3, match v { Some(x) => Some(dt_value_bytes(x)), None => None }) + rest).len() < 0x1_0000_0000_0000_0000,
        v matches Some(x) ==> ctx >= 1 + dt_value_need(x),
    ensures
        dt_fetch_resp_merge(cur, opt_bytes_piece(3, match v { Some(x) => Some(dt_value_bytes(x)), None => None }) + rest, ctx) == dt_fetch_resp_merge((DtFetchRespView { value: v, ..cur }), rest, ctx),
{
    if v is Some {
        let f = bytes_field(3, dt_value_bytes(v->0));
        let s = opt_bytes_piece(3, match v { Some(x) => Some(dt_value_bytes(x)), None => None }) + rest;
        lemma_field_roundtrip(f, rest, ctx);
        lemma_field_parse_len(s, ctx);
        assert(s.skip(field_bytes(f).len() as int) =~= rest);
        lemma_dt_value_reads_back(v->0, (ctx - 1) as nat);
        assert(dt_fetch_resp_apply(cur, f, ctx) == Some(DtFetchRespView { value: v, ..cur }));
    } else {
        assert(opt_bytes_piece(3, match v { Some(x) => Some(dt_value_bytes(x)), None => None }) + rest =~= rest);
        assert((DtFetchRespView { value: v, ..cur }) == cur);
    }
}

/// A `DtFetchResp` written to bytes merges back into an empty one as itself,
/// given the allowance that its nesting needs.
#[verifier::rlimit(50)]
pub proof fn lemma_dt_fetch_resp_reads_back(m: DtFetchRespView, ctx: nat)
    requires
        dt_fetch_resp_bytes(m).len() < 0x1_0000_0000_0000_0000,
        ctx >= dt_fetch_resp_need(m),
    ensures
        dt_fetch_resp_merge(dt_fetch_resp_empty(), dt_fetch_resp_bytes(m), ctx) == Some(m),
{
    let p0 = opt_bytes_piece(1, m.context);
    let p1 = varint_piece(2, i32_code(m.data_type));
    let p2 = opt_bytes_piece(3, match m.value { Some(x) => Some(dt_value_bytes(x)), None => None });
    let s3 = Seq::<u8>::empty();
    let s2 = p2 + s3;
    let s1 = p1 + s2;
    let s0 = p0 + s1;
    assert(dt_fetch_resp_bytes(m) == s0) by {
        lemma_concat_assoc(p0, p1, s2);
        lemma_concat_assoc(p0 + p1, p2, s3);
        assert(p0 + p1 + p2 + s3 =~= p0 + p1 + p2);
    }
    let m0 = dt_fetch_resp_empty();
    let m1 = DtFetchRespView { context: m.context, ..m0 };
    let m2 = DtFetchRespView { data_type: m.data_type, ..m1 };
    let m3 = DtFetchRespView { value: m.value, ..m2 };
    lemma_dt_fetch_resp_field_context(m0, m.context, s1, ctx);
    lemma_dt_fetch_resp_field_data_type(m1, m.data_type, s2, ctx);
    lemma_dt_fetch_resp_field_value(m2, m.value, s3, ctx);
    assert(m3 == m);
}
/// A data type fetch reply written to bytes reads back as itself, wherever
/// its maps nest within the allowance of 100 that a decode starts with:
/// every set element, map entry and nested map comes back, in order.
pub proof fn lemma_dt_fetch_resp_roundtrip(m: DtFetchRespView)
    requires
        dt_fetch_resp_bytes(m).len() < 0x1_0000_0000_0000_0000,
        dt_fetch_resp_need(m) <= 100,
    ensures
        dt_fetch_resp_decode(dt_fetch_resp_bytes(m)) == Some(m),
{
    lemma_dt_fetch_resp_reads_back(m, 100);
}

} // verus!
