//! Riak data types: the request that fetches one, and what it reads as.
use crate::bytes::{IntoBytes, copy_bytes, copy_bytes_vec};
use crate::errors::RiakErr;
use crate::proto::dt::{
    DtFetchReq, DtFetchReqView, DtFetchResp, DtFetchRespView, DtUpdateReq, DtUpdateReqView,
    DtValue, DtValueView, MapEntry, MapEntryView, MapField, MapFieldView, dt_fetch_req_bytes,
    dt_fetch_req_empty, dt_update_req_empty, map_entries_view, map_entry_view,
};
use crate::wire::{bytes_seq_view, opt_bytes_view};
use std::time::Duration;
use vstd::prelude::*;

verus! {

/// A request to update a data type.
#[derive(Clone, Debug)]
pub struct DataTypeUpdateReq(DtUpdateReq);

impl View for DataTypeUpdateReq {
    type V = DtUpdateReqView;

    closed spec fn view(&self) -> DtUpdateReqView {
        self.0@
    }
}

impl DataTypeUpdateReq {
    /// A request to update a data type in `bucket` of `bucket_type`.
    pub fn new<T: IntoBytes>(bucket: T, bucket_type: T) -> (r: DataTypeUpdateReq)
        ensures
            r@ == (DtUpdateReqView {
                bucket: bucket.byte_view(),
                bucket_type: bucket_type.byte_view(),
                ..dt_update_req_empty()
            }),
    {
        let mut req = DtUpdateReq::empty();
        req.bucket = bucket.into_bytes();
        req.bucket_type = bucket_type.into_bytes();
        DataTypeUpdateReq(req)
    }
}

/// The whole milliseconds of a duration, as `Duration::as_millis` counts
/// them.
pub uninterp spec fn duration_millis(d: Duration) -> nat;

/// The duration that `Duration::from_millis` makes of `ms` milliseconds.
pub uninterp spec fn millis_duration(ms: u64) -> Duration;

/// A duration of `ms` milliseconds, from `Duration::from_millis`: the named
/// result, whose whole milliseconds are `ms`.
#[verifier::external_body]
fn duration_from_millis(ms: u64) -> (r: Duration)
    ensures
        r == millis_duration(ms),
        duration_millis(r) == ms,
{
    Duration::from_millis(ms)
}

/// The whole milliseconds of a duration, from `Duration::as_millis`.
#[verifier::external_body]
fn duration_as_millis(d: &Duration) -> (r: u128)
    ensures
        r == duration_millis(*d),
{
    d.as_millis()
}

/// A request to fetch a data type.
#[derive(Clone, Debug)]
pub struct DataTypeFetchReq(DtFetchReq);

impl View for DataTypeFetchReq {
    type V = DtFetchReqView;

    closed spec fn view(&self) -> DtFetchReqView {
        self.0@
    }
}

impl DataTypeFetchReq {
    /// A request to fetch the data type at `key` in `bucket` of `bucket_type`.
    pub fn new<T: IntoBytes>(bucket_type: T, bucket: T, key: T) -> (r: DataTypeFetchReq)
        ensures
            r@ == (DtFetchReqView {
                bucket: bucket.byte_view(),
                bucket_type: bucket_type.byte_view(),
                key: key.byte_view(),
                ..dt_fetch_req_empty()
            }),
    {
        let mut req = DtFetchReq::empty();
        req.bucket = bucket.into_bytes();
        req.bucket_type = bucket_type.into_bytes();
        req.key = key.into_bytes();
        DataTypeFetchReq(req)
    }

    /// The "bucket_type" property.
    pub fn get_bucket_type(&self) -> (r: &[u8])
        ensures
            r@ == self@.bucket_type,
    {
        self.0.bucket_type.as_slice()
    }

    /// Sets the "bucket_type" property.
    pub fn set_bucket_type<T: IntoBytes>(&mut self, bucket_type: T)
        ensures
            final(self)@ == (DtFetchReqView { bucket_type: bucket_type.byte_view(), ..old(self)@ }),
    {
        self.0.bucket_type = bucket_type.into_bytes();
    }

    /// The "bucket" property.
    pub fn get_bucket(&self) -> (r: &[u8])
        ensures
            r@ == self@.bucket,
    {
        self.0.bucket.as_slice()
    }

    /// Sets the "bucket" property.
    pub fn set_bucket<T: IntoBytes>(&mut self, bucket: T)
        ensures
            final(self)@ == (DtFetchReqView { bucket: bucket.byte_view(), ..old(self)@ }),
    {
        self.0.bucket = bucket.into_bytes();
    }

    /// The "key" property.
    pub fn get_key(&self) -> (r: &[u8])
        ensures
            r@ == self@.key,
    {
        self.0.key.as_slice()
    }

    /// Sets the "key" property.
    pub fn set_key<T: IntoBytes>(&mut self, key: T)
        ensures
            final(self)@ == (DtFetchReqView { key: key.byte_view(), ..old(self)@ }),
    {
        self.0.key = key.into_bytes();
    }

    /// The "r" property.
    pub fn get_r(&self) -> (r: Option<u32>)
        ensures
            r == self@.r,
    {
        self.0.r
    }

    /// Sets the "r" property.
    pub fn set_r(&mut self, r: u32)
        ensures
            final(self)@ == (DtFetchReqView { r: Some(r), ..old(self)@ }),
    {
        self.0.r = Some(r);
    }

    /// The "pr" property.
    pub fn get_pr(&self) -> (r: Option<u32>)
        ensures
            r == self@.pr,
    {
        self.0.pr
    }

    /// Sets the "pr" property.
    pub fn set_pr(&mut self, pr: u32)
        ensures
            final(self)@ == (DtFetchReqView { pr: Some(pr), ..old(self)@ }),
    {
        self.0.pr = Some(pr);
    }

    /// The "basic_quorum" property.
    pub fn get_basic_quorum(&self) -> (r: Option<bool>)
        ensures
            r == self@.basic_quorum,
    {
        self.0.basic_quorum
    }

    /// Sets the "basic_quorum" property.
    pub fn set_basic_quorum(&mut self, basic_quorum: bool)
        ensures
            final(self)@ == (DtFetchReqView { basic_quorum: Some(basic_quorum), ..old(self)@ }),
    {
        self.0.basic_quorum = Some(basic_quorum);
    }

    /// The "notfound_ok" property.
    pub fn get_notfound_ok(&self) -> (r: Option<bool>)
        ensures
            r == self@.notfound_ok,
    {
        self.0.notfound_ok
    }

    /// Sets the "notfound_ok" property.
    pub fn set_notfound_ok(&mut self, notfound_ok: bool)
        ensures
            final(self)@ == (DtFetchReqView { notfound_ok: Some(notfound_ok), ..old(self)@ }),
    {
        self.0.notfound_ok = Some(notfound_ok);
    }
    /// The "timeout" property, as a duration.
    pub fn get_timeout(&self) -> (r: Option<Duration>)
        ensures
            match r {
                Some(d) => self@.timeout matches Some(t) && d == millis_duration(t as u64)
                    && duration_millis(d) == t,
                None => self@.timeout is None,
            },
    {
        match self.0.timeout {
            Some(ms) => Some(duration_from_millis(ms as u64)),
            None => None,
        }
    }

    /// Sets the "timeout" property to the whole milliseconds of `timeout`,
    /// cut to 32 bits.
    pub fn set_timeout(&mut self, timeout: Duration)
        ensures
            final(self)@ == (DtFetchReqView {
                timeout: Some((duration_millis(timeout) % 0x1_0000_0000) as u32),
                ..old(self)@
            }),
    {
        let ms: u128 = duration_as_millis(&timeout);
        let low: u128 = ms % 0x1_0000_0000;
        self.0.timeout = Some(low as u32);
    }

    /// The "sloppy_quorum" property.
    pub fn get_sloppy_quorum(&self) -> (r: Option<bool>)
        ensures
            r == self@.sloppy_quorum,
    {
        self.0.sloppy_quorum
    }

    /// Sets the "sloppy_quorum" property.
    pub fn set_sloppy_quorum(&mut self, sloppy_quorum: bool)
        ensures
            final(self)@ == (DtFetchReqView { sloppy_quorum: Some(sloppy_quorum), ..old(self)@ }),
    {
        self.0.sloppy_quorum = Some(sloppy_quorum);
    }

    /// The "n_val" property.
    pub fn get_n_val(&self) -> (r: Option<u32>)
        ensures
            r == self@.n_val,
    {
        self.0.n_val
    }

    /// Sets the "n_val" property.
    pub fn set_n_val(&mut self, n_val: u32)
        ensures
            final(self)@ == (DtFetchReqView { n_val: Some(n_val), ..old(self)@ }),
    {
        self.0.n_val = Some(n_val);
    }

    /// The "include_context" property.
    pub fn get_include_context(&self) -> (r: Option<bool>)
        ensures
            r == self@.include_context,
    {
        self.0.include_context
    }

    /// Sets the "include_context" property.
    pub fn set_include_context(&mut self, include_context: bool)
        ensures
            final(self)@ == (DtFetchReqView { include_context: Some(include_context), ..old(self)@ }),
    {
        self.0.include_context = Some(include_context);
    }

    /// The bytes of the request.
    pub fn serialize(self) -> (r: Result<Vec<u8>, RiakErr>)
        ensures
            r matches Ok(b) && b@ == dt_fetch_req_bytes(self@),
    {
        Ok(self.0.encode_to_vec())
    }
}

/// The kinds of data type.
#[allow(non_camel_case_types)]
#[derive(Clone, Copy, Debug, Default, PartialEq, Eq, Structural)]
pub enum DataType {
    #[default]
    COUNTER,
    SET,
    MAP,
    HLL,
}

/// The kind of data type with code `c` on the wire: 1 to 4 are a counter, a
/// set, a map and a HyperLogLog; a grow-only set (5), or an unknown code,
/// reads as a counter.
pub open spec fn data_type_of_code(c: i32) -> DataType {
    if c == 2 {
        DataType::SET
    } else if c == 3 {
        DataType::MAP
    } else if c == 4 {
        DataType::HLL
    } else {
        DataType::COUNTER
    }
}

/// The code that the protocol gives each kind of data type.
pub open spec fn data_type_code(t: DataType) -> i32 {
    match t {
        DataType::COUNTER => 1,
        DataType::SET => 2,
        DataType::MAP => 3,
        DataType::HLL => 4,
    }
}

/// Each kind of data type reads back from its protocol code, and each code
/// from 1 to 4 names the kind it is the code of; any other code reads as a
/// counter.
pub proof fn lemma_data_type_codes(t: DataType, c: i32)
    ensures
        data_type_of_code(data_type_code(t)) == t,
        1 <= c <= 4 ==> data_type_code(data_type_of_code(c)) == c,
        !(1 <= c <= 4) ==> data_type_of_code(c) == DataType::COUNTER,
{
}

impl DataType {
    /// The kind of data type with code `c` on the wire.
    pub fn from_code(c: i32) -> (r: DataType)
        ensures
            r == data_type_of_code(c),
    {
        if c == 2 {
            DataType::SET
        } else if c == 3 {
            DataType::MAP
        } else if c == 4 {
            DataType::HLL
        } else {
            DataType::COUNTER
        }
    }
}

/// The types of a field of a map.
#[allow(non_camel_case_types)]
#[derive(Clone, Copy, Debug, Default, PartialEq, Eq, Structural)]
pub enum DataTypeMapFieldType {
    #[default]
    COUNTER,
    SET,
    REGISTER,
    FLAG,
    MAP,
}

/// The type of map field with code `c` on the wire: 1 to 5 are a counter, a
/// set, a register, a flag and a map; an unknown code reads as a counter.
pub open spec fn map_field_type_of_code(c: i32) -> DataTypeMapFieldType {
    if c == 2 {
        DataTypeMapFieldType::SET
    } else if c == 3 {
        DataTypeMapFieldType::REGISTER
    } else if c == 4 {
        DataTypeMapFieldType::FLAG
    } else if c == 5 {
        DataTypeMapFieldType::MAP
    } else {
        DataTypeMapFieldType::COUNTER
    }
}

/// The code that the protocol gives each type of map field.
pub open spec fn map_field_type_code(t: DataTypeMapFieldType) -> i32 {
    match t {
        DataTypeMapFieldType::COUNTER => 1,
        DataTypeMapFieldType::SET => 2,
        DataTypeMapFieldType::REGISTER => 3,
        DataTypeMapFieldType::FLAG => 4,
        DataTypeMapFieldType::MAP => 5,
    }
}

/// Each type of map field reads back from its protocol code, and each code
/// from 1 to 5 names the type it is the code of; any other code reads as a
/// counter.
pub proof fn lemma_map_field_type_codes(t: DataTypeMapFieldType, c: i32)
    ensures
        map_field_type_of_code(map_field_type_code(t)) == t,
        1 <= c <= 5 ==> map_field_type_code(map_field_type_of_code(c)) == c,
        !(1 <= c <= 5) ==> map_field_type_of_code(c) == DataTypeMapFieldType::COUNTER,
{
}

impl DataTypeMapFieldType {
    /// The type of map field with code `c` on the wire.
    pub fn from_code(c: i32) -> (r: DataTypeMapFieldType)
        ensures
            r == map_field_type_of_code(c),
    {
        if c == 2 {
            DataTypeMapFieldType::SET
        } else if c == 3 {
            DataTypeMapFieldType::REGISTER
        } else if c == 4 {
            DataTypeMapFieldType::FLAG
        } else if c == 5 {
            DataTypeMapFieldType::MAP
        } else {
            DataTypeMapFieldType::COUNTER
        }
    }
}

/// The name and type of a field of a map.
#[derive(Clone, Debug)]
pub struct DataTypeMapField {
    pub name: Vec<u8>,
    pub field_type: DataTypeMapFieldType,
}

impl View for DataTypeMapField {
    type V = (Seq<u8>, DataTypeMapFieldType);

    open spec fn view(&self) -> (Seq<u8>, DataTypeMapFieldType) {
        (self.name@, self.field_type)
    }
}

/// The map field that a field of the wire gives.
pub open spec fn map_field_from_proto(f: MapFieldView) -> (Seq<u8>, DataTypeMapFieldType) {
    (f.name, map_field_type_of_code(f.field_type))
}

impl DataTypeMapField {
    /// The map field of a field of the wire.
    pub fn from_proto(f: &MapField) -> (r: DataTypeMapField)
        ensures
            r@ == map_field_from_proto(f@),
    {
        DataTypeMapField {
            name: copy_bytes(f.name.as_slice()),
            field_type: DataTypeMapFieldType::from_code(f.field_type),
        }
    }
}

/// A field of a map with its value; a map's value holds further entries.
#[derive(Debug)]
pub struct DataTypeMapEntry {
    pub field: DataTypeMapField,
    pub counter_value: Option<i64>,
    pub set_value: Vec<Vec<u8>>,
    pub register_value: Option<Vec<u8>>,
    pub flag_value: Option<bool>,
    pub map_value: Vec<DataTypeMapEntry>,
}

/// The value of a `DataTypeMapEntry`.
pub struct DataTypeMapEntryView {
    pub field: (Seq<u8>, DataTypeMapFieldType),
    pub counter_value: Option<i64>,
    pub set_value: Seq<Seq<u8>>,
    pub register_value: Option<Seq<u8>>,
    pub flag_value: Option<bool>,
    pub map_value: Seq<DataTypeMapEntryView>,
}

/// The value of a `DataTypeMapEntry`.
pub open spec fn dt_map_entry_view(e: DataTypeMapEntry) -> DataTypeMapEntryView
    decreases e,
{
    DataTypeMapEntryView {
        field: e.field@,
        counter_value: e.counter_value,
        set_value: bytes_seq_view(e.set_value@),
        register_value: opt_bytes_view(e.register_value),
        flag_value: e.flag_value,
        map_value: dt_map_entries_view(e.map_value@),
    }
}

/// The values of a sequence of `DataTypeMapEntry`.
pub open spec fn dt_map_entries_view(s: Seq<DataTypeMapEntry>) -> Seq<DataTypeMapEntryView>
    decreases s,
{
    if s.len() == 0 {
        Seq::empty()
    } else {
        dt_map_entries_view(s.subrange(0, s.len() - 1)).push(dt_map_entry_view(s[s.len() - 1]))
    }
}

impl View for DataTypeMapEntry {
    type V = DataTypeMapEntryView;

    open spec fn view(&self) -> DataTypeMapEntryView {
        dt_map_entry_view(*self)
    }
}

/// The map entry that an entry of the wire gives: its field's type read from
/// its code, and its nested entries converted alike.
pub open spec fn map_entry_from_proto(v: MapEntryView) -> DataTypeMapEntryView
    decreases v,
{
    DataTypeMapEntryView {
        field: map_field_from_proto(v.field),
        counter_value: v.counter_value,
        set_value: v.set_value,
        register_value: v.register_value,
        flag_value: v.flag_value,
        map_value: map_entries_from_proto(v.map_value),
    }
}

/// The map entries that entries of the wire give, in order.
pub open spec fn map_entries_from_proto(s: Seq<MapEntryView>) -> Seq<DataTypeMapEntryView>
    decreases s,
{
    if s.len() == 0 {
        Seq::empty()
    } else {
        map_entries_from_proto(s.subrange(0, s.len() - 1)).push(
            map_entry_from_proto(s[s.len() - 1]),
        )
    }
}

/// Converting entries of the wire keeps every one of them, in order: the
/// entry at each position is the one that the entry of the wire at that
/// position gives.
pub proof fn lemma_map_entries_from_proto(s: Seq<MapEntryView>)
    ensures
        map_entries_from_proto(s).len() == s.len(),
        forall|i: int|
            0 <= i < s.len() ==> #[trigger] map_entries_from_proto(s)[i] == map_entry_from_proto(
                s[i],
            ),
    decreases s.len(),
{
    if s.len() > 0 {
        let p = s.subrange(0, s.len() - 1);
        lemma_map_entries_from_proto(p);
        assert forall|i: int| 0 <= i < s.len() implies #[trigger] map_entries_from_proto(s)[i]
            == map_entry_from_proto(s[i]) by {
            if i < s.len() - 1 {
                assert(p[i] == s[i]);
                assert(map_entries_from_proto(s)[i] == map_entries_from_proto(p)[i]);
            }
        }
    }
}

proof fn lemma_map_entries_view_index(s: Seq<MapEntry>)
    ensures
        map_entries_view(s).len() == s.len(),
        forall|j: int| 0 <= j < s.len() ==> #[trigger] map_entries_view(s)[j] == s[j]@,
    decreases s.len(),
{
    if s.len() > 0 {
        lemma_map_entries_view_index(s.subrange(0, s.len() - 1));
    }
}

proof fn lemma_dt_map_entries_view_index(s: Seq<DataTypeMapEntry>)
    ensures
        dt_map_entries_view(s).len() == s.len(),
        forall|j: int| 0 <= j < s.len() ==> #[trigger] dt_map_entries_view(s)[j] == s[j]@,
    decreases s.len(),
{
    if s.len() > 0 {
        lemma_dt_map_entries_view_index(s.subrange(0, s.len() - 1));
    }
}

proof fn lemma_map_entries_from_proto_index(s: Seq<MapEntryView>)
    ensures
        map_entries_from_proto(s).len() == s.len(),
        forall|j: int|
            0 <= j < s.len() ==> #[trigger] map_entries_from_proto(s)[j] == map_entry_from_proto(
                s[j],
            ),
    decreases s.len(),
{
    if s.len() > 0 {
        lemma_map_entries_from_proto_index(s.subrange(0, s.len() - 1));
    }
}

/// Two sequences of map entries whose elements agree have equal values.
proof fn lemma_dt_entries_from(out: Seq<DataTypeMapEntry>, src: Seq<MapEntry>)
    requires
        out.len() == src.len(),
        forall|j: int| 0 <= j < out.len() ==> (#[trigger] out[j])@ == map_entry_from_proto(src[j]@),
    ensures
        dt_map_entries_view(out) == map_entries_from_proto(map_entries_view(src)),
{
    lemma_map_entries_view_index(src);
    lemma_dt_map_entries_view_index(out);
    lemma_map_entries_from_proto_index(map_entries_view(src));
    assert(dt_map_entries_view(out) =~= map_entries_from_proto(map_entries_view(src)));
}

impl Clone for DataTypeMapEntry {
    /// The same map entry.
    fn clone(&self) -> (r: DataTypeMapEntry)
        ensures
            r@ == self@,
        decreases self,
    {
        let mut map_value: Vec<DataTypeMapEntry> = Vec::new();
        let mut i: usize = 0;
        while i < self.map_value.len()
            invariant
                i <= self.map_value@.len(),
                map_value@.len() == i,
                forall|j: int| 0 <= j < i ==> (#[trigger] map_value@[j])@ == self.map_value@[j]@,
            decreases self.map_value@.len() - i,
        {
            proof {
                assert(decreases_to!(*self => self.map_value@[i as int]));
            }
            let sub = self.map_value[i].clone();
            map_value.push(sub);
            i = i + 1;
        }
        proof {
            lemma_dt_map_entries_view_index(map_value@);
            lemma_dt_map_entries_view_index(self.map_value@);
            assert(dt_map_entries_view(map_value@) =~= dt_map_entries_view(self.map_value@));
        }
        DataTypeMapEntry {
            field: DataTypeMapField {
                name: copy_bytes(self.field.name.as_slice()),
                field_type: self.field.field_type,
            },
            counter_value: self.counter_value,
            set_value: copy_bytes_vec(&self.set_value),
            register_value: match &self.register_value {
                Some(v) => Some(copy_bytes(v.as_slice())),
                None => None,
            },
            flag_value: self.flag_value,
            map_value,
        }
    }
}

impl DataTypeMapEntry {
    /// The map entry of an entry of the wire.
    pub fn from_proto(e: &MapEntry) -> (r: DataTypeMapEntry)
        ensures
            r@ == map_entry_from_proto(e@),
        decreases e,
    {
        let mut map_value: Vec<DataTypeMapEntry> = Vec::new();
        let mut i: usize = 0;
        while i < e.map_value.len()
            invariant
                i <= e.map_value@.len(),
                map_value@.len() == i,
                forall|j: int|
                    0 <= j < i ==> (#[trigger] map_value@[j])@ == map_entry_from_proto(
                        e.map_value@[j]@,
                    ),
            decreases e.map_value@.len() - i,
        {
            proof {
                assert(decreases_to!(*e => e.map_value@[i as int]));
            }
            let sub = DataTypeMapEntry::from_proto(&e.map_value[i]);
            map_value.push(sub);
            i = i + 1;
        }
        proof {
            lemma_dt_entries_from(map_value@, e.map_value@);
        }
        DataTypeMapEntry {
            field: DataTypeMapField::from_proto(&e.field),
            counter_value: e.counter_value,
            set_value: copy_bytes_vec(&e.set_value),
            register_value: match &e.register_value {
                Some(v) => Some(copy_bytes(v.as_slice())),
                None => None,
            },
            flag_value: e.flag_value,
            map_value,
        }
    }
}

/// The value of a data type: a counter, a set or a map.
#[derive(Clone, Debug)]
pub struct DataTypeValue {
    pub counter_value: Option<i64>,
    pub set_value: Vec<Vec<u8>>,
    pub map_value: Vec<DataTypeMapEntry>,
}

/// The value of a `DataTypeValue`.
pub struct DataTypeValueView {
    pub counter_value: Option<i64>,
    pub set_value: Seq<Seq<u8>>,
    pub map_value: Seq<DataTypeMapEntryView>,
}

impl View for DataTypeValue {
    type V = DataTypeValueView;

    open spec fn view(&self) -> DataTypeValueView {
        DataTypeValueView {
            counter_value: self.counter_value,
            set_value: bytes_seq_view(self.set_value@),
            map_value: dt_map_entries_view(self.map_value@),
        }
    }
}

/// The value that a value of the wire gives; its HyperLogLog and grow-only
/// set parts are left out.
pub open spec fn data_type_value_from_proto(v: DtValueView) -> DataTypeValueView {
    DataTypeValueView {
        counter_value: v.counter_value,
        set_value: v.set_value,
        map_value: map_entries_from_proto(v.map_value),
    }
}

impl DataTypeValue {
    /// The value of a value of the wire.
    pub fn from_proto(v: &DtValue) -> (r: DataTypeValue)
        ensures
            r@ == data_type_value_from_proto(v@),
    {
        let mut map_value: Vec<DataTypeMapEntry> = Vec::new();
        let mut i: usize = 0;
        while i < v.map_value.len()
            invariant
                i <= v.map_value@.len(),
                map_value@.len() == i,
                forall|j: int|
                    0 <= j < i ==> (#[trigger] map_value@[j])@ == map_entry_from_proto(
                        v.map_value@[j]@,
                    ),
            decreases v.map_value@.len() - i,
        {
            let sub = DataTypeMapEntry::from_proto(&v.map_value[i]);
            map_value.push(sub);
            i = i + 1;
        }
        proof {
            lemma_dt_entries_from(map_value@, v.map_value@);
        }
        DataTypeValue {
            counter_value: v.counter_value,
            set_value: copy_bytes_vec(&v.set_value),
            map_value,
        }
    }
}

/// A fetched data type: its context, its kind and its value.
#[derive(Clone, Debug)]
pub struct DataTypeFetchResp {
    pub context: Option<Vec<u8>>,
    pub data_type: DataType,
    pub value: Option<DataTypeValue>,
}

/// The value of a `DataTypeFetchResp`.
pub struct DataTypeFetchRespView {
    pub context: Option<Seq<u8>>,
    pub data_type: DataType,
    pub value: Option<DataTypeValueView>,
}

impl View for DataTypeFetchResp {
    type V = DataTypeFetchRespView;

    open spec fn view(&self) -> DataTypeFetchRespView {
        DataTypeFetchRespView {
            context: opt_bytes_view(self.context),
            data_type: self.data_type,
            value: match self.value {
                Some(v) => Some(v@),
                None => None,
            },
        }
    }
}

/// The fetched data type that a reply of the wire gives.
pub open spec fn data_type_fetch_resp_from_proto(r: DtFetchRespView) -> DataTypeFetchRespView {
    DataTypeFetchRespView {
        context: r.context,
        data_type: data_type_of_code(r.data_type),
        value: match r.value {
            Some(v) => Some(data_type_value_from_proto(v)),
            None => None,
        },
    }
}

impl DataTypeFetchResp {
    /// The fetched data type of a reply of the wire.
    pub fn from_proto(resp: &DtFetchResp) -> (r: DataTypeFetchResp)
        ensures
            r@ == data_type_fetch_resp_from_proto(resp@),
    {
        DataTypeFetchResp {
            context: match &resp.context {
                Some(c) => Some(copy_bytes(c.as_slice())),
                None => None,
            },
            data_type: DataType::from_code(resp.data_type),
            value: match &resp.value {
                Some(v) => Some(DataTypeValue::from_proto(v)),
                None => None,
            },
        }
    }
}

} // verus!
