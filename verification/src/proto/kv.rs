//! Messages of the key/value and bucket API.
use crate::wire::{
    Field, FieldData, RawData, RawField, WireMessage, bool_code, bytes_field, bytes_piece,
    bytes_seq_view, decode_error, field_bytes, field_parse, i32_code, i32_from_code, i32_of_code,
    i32_to_code, i64_code, i64_from_code, i64_of_code, lemma_concat_assoc, lemma_field_parse_len,
    lemma_field_roundtrip, lemma_i32_code_roundtrip, lemma_i64_code_roundtrip, messages_bytes,
    opt_bool_code, opt_bytes_piece, opt_bytes_view, opt_i32_code, opt_u32_code, opt_varint_piece,
    put_bytes_field, put_message, put_opt_bool, put_opt_bytes, put_opt_i32, put_opt_message,
    put_opt_u32, put_rep_message, put_varint_field, read_field, rep_bytes_piece, u32_from_code,
    u32_of_code, varint_field, varint_piece,
};
use prost::DecodeError;
use vstd::prelude::*;

verus! {

/// The server's node name and version.
#[derive(Clone, Debug)]
pub struct RpbGetServerInfoResp {
    pub node: Option<Vec<u8>>,
    pub server_version: Option<Vec<u8>>,
}

/// The value of a `RpbGetServerInfoResp`.
pub struct RpbGetServerInfoRespView {
    pub node: Option<Seq<u8>>,
    pub server_version: Option<Seq<u8>>,
}

impl View for RpbGetServerInfoResp {
    type V = RpbGetServerInfoRespView;

    open spec fn view(&self) -> RpbGetServerInfoRespView {
        RpbGetServerInfoRespView {
            node: opt_bytes_view(self.node),
            server_version: opt_bytes_view(self.server_version),
        }
    }
}

/// A `RpbGetServerInfoResp` with no field set.
pub open spec fn rpb_get_server_info_resp_empty() -> RpbGetServerInfoRespView {
    RpbGetServerInfoRespView {
        node: None,
        server_version: None,
    }
}

/// The bytes of a `RpbGetServerInfoResp`: its fields in the order of their tags.
pub open spec fn rpb_get_server_info_resp_bytes(m: RpbGetServerInfoRespView) -> Seq<u8> {
    opt_bytes_piece(1, m.node)
        + opt_bytes_piece(2, m.server_version)
}

/// What one field read from the wire does to a `RpbGetServerInfoResp`: `None` where
/// the field has a known tag and a payload of another wire type, or a
/// nested message that does not read. Fields of unknown tags are skipped.
/// `ctx` is what is left of the nesting allowance of 100 messages: a
/// nested message, or an unknown field, needs some of it.
pub open spec fn rpb_get_server_info_resp_apply(m: RpbGetServerInfoRespView, f: RawField, ctx: nat) -> Option<RpbGetServerInfoRespView>
    decreases ctx, 0nat,
{
    if f.tag == 1 {
        match f.data {
            RawData::Bytes(b) => Some(RpbGetServerInfoRespView { node: Some(b), ..m }),
            _ => None,
        }
    } else if f.tag == 2 {
        match f.data {
            RawData::Bytes(b) => Some(RpbGetServerInfoRespView { server_version: Some(b), ..m }),
            _ => None,
        }
    } else if ctx == 0 {
        None
    } else {
        Some(m)
    }
}

/// Reads the fields of `s` into `m`, one after the other, as `prost`
/// merges a `RpbGetServerInfoResp`.
pub open spec fn rpb_get_server_info_resp_merge(m: RpbGetServerInfoRespView, s: Seq<u8>, ctx: nat) -> Option<RpbGetServerInfoRespView>
    decreases ctx, s.len(),
{
    if s.len() == 0 {
        Some(m)
    } else {
        match field_parse(s, ctx) {
            Some((f, n)) => if 1 <= n <= s.len() {
                match rpb_get_server_info_resp_apply(m, f, ctx) {
                    Some(m2) => rpb_get_server_info_resp_merge(m2, s.skip(n as int), ctx),
                    None => None,
                }
            } else {
                None
            },
            None => None,
        }
    }
}

/// A `RpbGetServerInfoResp` read from `s`, or `None` where `s` is malformed: its
/// fields merged into an empty message with the full allowance of 100.
pub open spec fn rpb_get_server_info_resp_decode(s: Seq<u8>) -> Option<RpbGetServerInfoRespView> {
    rpb_get_server_info_resp_merge(rpb_get_server_info_resp_empty(), s, 100)
}

impl RpbGetServerInfoResp {
    /// A `RpbGetServerInfoResp` with no field set.
    pub fn empty() -> (r: RpbGetServerInfoResp)
        ensures
            r@ == rpb_get_server_info_resp_empty(),
    {
        let r = RpbGetServerInfoResp {
            node: None,
            server_version: None,
        };
        r
    }

    /// Reads the fields of `buf` into this message, as `prost` merges a
    /// `RpbGetServerInfoResp`.
    pub fn merge_from(&mut self, buf: &[u8], ctx: u32) -> (res: Result<(), DecodeError>)
        ensures
            match res {
                Ok(()) => rpb_get_server_info_resp_merge(old(self)@, buf@, ctx as nat) == Some(final(self)@),
                Err(_) => rpb_get_server_info_resp_merge(old(self)@, buf@, ctx as nat) is None,
            },
        decreases ctx, buf@.len(),
    {
        let mut rest = buf;
        while rest.len() > 0
            invariant
                rpb_get_server_info_resp_merge(old(self)@, buf@, ctx as nat) == rpb_get_server_info_resp_merge(self@, rest@, ctx as nat),
                rest@.len() <= buf@.len(),
            decreases rest@.len(),
        {
            let (f, r2) = match read_field(rest, ctx) {
                Ok(p) => p,
                Err(e) => return Err(e),
            };
            proof {
                lemma_field_parse_len(rest@, ctx as nat);
            }
            match self.apply_field(f, ctx) {
                Ok(()) => {},
                Err(e) => return Err(e),
            }
            rest = r2;
        }
        Ok(())
    }

    /// Reads a `RpbGetServerInfoResp` from `buf`, with the full allowance of 100.
    pub fn decode(buf: &[u8]) -> (res: Result<RpbGetServerInfoResp, DecodeError>)
        ensures
            match res {
                Ok(m) => rpb_get_server_info_resp_decode(buf@) == Some(m@),
                Err(_) => rpb_get_server_info_resp_decode(buf@) is None,
            },
    {
        let mut m = RpbGetServerInfoResp::empty();
        match m.merge_from(buf, 100) {
            Ok(()) => Ok(m),
            Err(e) => Err(e),
        }
    }

    fn apply_field(&mut self, f: Field, ctx: u32) -> (res: Result<(), DecodeError>)
        ensures
            match res {
                Ok(()) => rpb_get_server_info_resp_apply(old(self)@, f@, ctx as nat) == Some(final(self)@),
                Err(_) => rpb_get_server_info_resp_apply(old(self)@, f@, ctx as nat) is None,
            },
        decreases ctx, 0nat,
    {
        let Field { tag, data } = f;
        if tag == 1 {
            match data {
                FieldData::Bytes(b) => {
                    self.node = Some(b);
                    Ok(())
                },
                _ => Err(decode_error("invalid wire type")),
            }
        } else if tag == 2 {
            match data {
                FieldData::Bytes(b) => {
                    self.server_version = Some(b);
                    Ok(())
                },
                _ => Err(decode_error("invalid wire type")),
            }
        } else if ctx == 0 {
            Err(decode_error("recursion limit reached"))
        } else {
            Ok(())
        }
    }

}

/// A key with an optional value.
#[derive(Clone, Debug)]
pub struct RpbPair {
    pub key: Vec<u8>,
    pub value: Option<Vec<u8>>,
}

/// The value of a `RpbPair`.
pub struct RpbPairView {
    pub key: Seq<u8>,
    pub value: Option<Seq<u8>>,
}

impl View for RpbPair {
    type V = RpbPairView;

    open spec fn view(&self) -> RpbPairView {
        RpbPairView {
            key: self.key@,
            value: opt_bytes_view(self.value),
        }
    }
}

/// A `RpbPair` with no field set.
pub open spec fn rpb_pair_empty() -> RpbPairView {
    RpbPairView {
        key: Seq::empty(),
        value: None,
    }
}

/// The bytes of a `RpbPair`: its fields in the order of their tags.
pub open spec fn rpb_pair_bytes(m: RpbPairView) -> Seq<u8> {
    bytes_piece(1, m.key)
        + opt_bytes_piece(2, m.value)
}

/// What one field read from the wire does to a `RpbPair`: `None` where
/// the field has a known tag and a payload of another wire type, or a
/// nested message that does not read. Fields of unknown tags are skipped.
/// `ctx` is what is left of the nesting allowance of 100 messages: a
/// nested message, or an unknown field, needs some of it.
pub open spec fn rpb_pair_apply(m: RpbPairView, f: RawField, ctx: nat) -> Option<RpbPairView>
    decreases ctx, 0nat,
{
    if f.tag == 1 {
        match f.data {
            RawData::Bytes(b) => Some(RpbPairView { key: b, ..m }),
            _ => None,
        }
    } else if f.tag == 2 {
        match f.data {
            RawData::Bytes(b) => Some(RpbPairView { value: Some(b), ..m }),
            _ => None,
        }
    } else if ctx == 0 {
        None
    } else {
        Some(m)
    }
}

/// Reads the fields of `s` into `m`, one after the other, as `prost`
/// merges a `RpbPair`.
pub open spec fn rpb_pair_merge(m: RpbPairView, s: Seq<u8>, ctx: nat) -> Option<RpbPairView>
    decreases ctx, s.len(),
{
    if s.len() == 0 {
        Some(m)
    } else {
        match field_parse(s, ctx) {
            Some((f, n)) => if 1 <= n <= s.len() {
                match rpb_pair_apply(m, f, ctx) {
                    Some(m2) => rpb_pair_merge(m2, s.skip(n as int), ctx),
                    None => None,
                }
            } else {
                None
            },
            None => None,
        }
    }
}

/// A `RpbPair` read from `s`, or `None` where `s` is malformed: its
/// fields merged into an empty message with the full allowance of 100.
pub open spec fn rpb_pair_decode(s: Seq<u8>) -> Option<RpbPairView> {
    rpb_pair_merge(rpb_pair_empty(), s, 100)
}

impl RpbPair {
    /// A `RpbPair` with no field set.
    pub fn empty() -> (r: RpbPair)
        ensures
            r@ == rpb_pair_empty(),
    {
        let r = RpbPair {
            key: Vec::new(),
            value: None,
        };
        r
    }

    /// The bytes of this message, in a new buffer.
    pub fn encode_to_vec(&self) -> (r: Vec<u8>)
        ensures
            r@ == rpb_pair_bytes(self@),
    {
        let mut buf: Vec<u8> = Vec::new();
        self.encode(&mut buf);
        proof {
            assert(buf@ =~= rpb_pair_bytes(self@));
        }
        buf
    }

    /// Reads the fields of `buf` into this message, as `prost` merges a
    /// `RpbPair`.
    pub fn merge_from(&mut self, buf: &[u8], ctx: u32) -> (res: Result<(), DecodeError>)
        ensures
            match res {
                Ok(()) => rpb_pair_merge(old(self)@, buf@, ctx as nat) == Some(final(self)@),
                Err(_) => rpb_pair_merge(old(self)@, buf@, ctx as nat) is None,
            },
        decreases ctx, buf@.len(),
    {
        let mut rest = buf;
        while rest.len() > 0
            invariant
                rpb_pair_merge(old(self)@, buf@, ctx as nat) == rpb_pair_merge(self@, rest@, ctx as nat),
                rest@.len() <= buf@.len(),
            decreases rest@.len(),
        {
            let (f, r2) = match read_field(rest, ctx) {
                Ok(p) => p,
                Err(e) => return Err(e),
            };
            proof {
                lemma_field_parse_len(rest@, ctx as nat);
            }
            match self.apply_field(f, ctx) {
                Ok(()) => {},
                Err(e) => return Err(e),
            }
            rest = r2;
        }
        Ok(())
    }

    /// Reads a `RpbPair` from `buf`, with the full allowance of 100.
    pub fn decode(buf: &[u8]) -> (res: Result<RpbPair, DecodeError>)
        ensures
            match res {
                Ok(m) => rpb_pair_decode(buf@) == Some(m@),
                Err(_) => rpb_pair_decode(buf@) is None,
            },
    {
        let mut m = RpbPair::empty();
        match m.merge_from(buf, 100) {
            Ok(()) => Ok(m),
            Err(e) => Err(e),
        }
    }

    fn apply_field(&mut self, f: Field, ctx: u32) -> (res: Result<(), DecodeError>)
        ensures
            match res {
                Ok(()) => rpb_pair_apply(old(self)@, f@, ctx as nat) == Some(final(self)@),
                Err(_) => rpb_pair_apply(old(self)@, f@, ctx as nat) is None,
            },
        decreases ctx, 0nat,
    {
        let Field { tag, data } = f;
        if tag == 1 {
            match data {
                FieldData::Bytes(b) => {
                    self.key = b;
                    Ok(())
                },
                _ => Err(decode_error("invalid wire type")),
            }
        } else if tag == 2 {
            match data {
                FieldData::Bytes(b) => {
                    self.value = Some(b);
                    Ok(())
                },
                _ => Err(decode_error("invalid wire type")),
            }
        } else if ctx == 0 {
            Err(decode_error("recursion limit reached"))
        } else {
            Ok(())
        }
    }

}

impl WireMessage for RpbPair {
    open spec fn wire_bytes(&self) -> Seq<u8> {
        rpb_pair_bytes(self@)
    }

    fn encode(&self, buf: &mut Vec<u8>) {
        let ghost start = buf@;
        put_bytes_field(buf, 1, self.key.as_slice());
        let ghost mut acc = bytes_piece(1, self@.key);
        proof {
            assert(buf@ == start + acc);
        }
        put_opt_bytes(buf, 2, &self.value);
        proof {
            lemma_concat_assoc(start, acc, opt_bytes_piece(2, self@.value));
            acc = acc + opt_bytes_piece(2, self@.value);
        }
        proof {
            assert(acc == rpb_pair_bytes(self@));
        }
    }
}

/// An Erlang module and function.
#[derive(Clone, Debug)]
pub struct RpbModFun {
    pub module: Vec<u8>,
    pub function: Vec<u8>,
}

/// The value of a `RpbModFun`.
pub struct RpbModFunView {
    pub module: Seq<u8>,
    pub function: Seq<u8>,
}

impl View for RpbModFun {
    type V = RpbModFunView;

    open spec fn view(&self) -> RpbModFunView {
        RpbModFunView {
            module: self.module@,
            function: self.function@,
        }
    }
}

/// A `RpbModFun` with no field set.
pub open spec fn rpb_mod_fun_empty() -> RpbModFunView {
    RpbModFunView {
        module: Seq::empty(),
        function: Seq::empty(),
    }
}

/// The bytes of a `RpbModFun`: its fields in the order of their tags.
pub open spec fn rpb_mod_fun_bytes(m: RpbModFunView) -> Seq<u8> {
    bytes_piece(1, m.module)
        + bytes_piece(2, m.function)
}

/// What one field read from the wire does to a `RpbModFun`: `None` where
/// the field has a known tag and a payload of another wire type, or a
/// nested message that does not read. Fields of unknown tags are skipped.
/// `ctx` is what is left of the nesting allowance of 100 messages: a
/// nested message, or an unknown field, needs some of it.
pub open spec fn rpb_mod_fun_apply(m: RpbModFunView, f: RawField, ctx: nat) -> Option<RpbModFunView>
    decreases ctx, 0nat,
{
    if f.tag == 1 {
        match f.data {
            RawData::Bytes(b) => Some(RpbModFunView { module: b, ..m }),
            _ => None,
        }
    } else if f.tag == 2 {
        match f.data {
            RawData::Bytes(b) => Some(RpbModFunView { function: b, ..m }),
            _ => None,
        }
    } else if ctx == 0 {
        None
    } else {
        Some(m)
    }
}

/// Reads the fields of `s` into `m`, one after the other, as `prost`
/// merges a `RpbModFun`.
pub open spec fn rpb_mod_fun_merge(m: RpbModFunView, s: Seq<u8>, ctx: nat) -> Option<RpbModFunView>
    decreases ctx, s.len(),
{
    if s.len() == 0 {
        Some(m)
    } else {
        match field_parse(s, ctx) {
            Some((f, n)) => if 1 <= n <= s.len() {
                match rpb_mod_fun_apply(m, f, ctx) {
                    Some(m2) => rpb_mod_fun_merge(m2, s.skip(n as int), ctx),
                    None => None,
                }
            } else {
                None
            },
            None => None,
        }
    }
}

/// A `RpbModFun` read from `s`, or `None` where `s` is malformed: its
/// fields merged into an empty message with the full allowance of 100.
pub open spec fn rpb_mod_fun_decode(s: Seq<u8>) -> Option<RpbModFunView> {
    rpb_mod_fun_merge(rpb_mod_fun_empty(), s, 100)
}

impl RpbModFun {
    /// A `RpbModFun` with no field set.
    pub fn empty() -> (r: RpbModFun)
        ensures
            r@ == rpb_mod_fun_empty(),
    {
        let r = RpbModFun {
            module: Vec::new(),
            function: Vec::new(),
        };
        r
    }

    /// The bytes of this message, in a new buffer.
    pub fn encode_to_vec(&self) -> (r: Vec<u8>)
        ensures
            r@ == rpb_mod_fun_bytes(self@),
    {
        let mut buf: Vec<u8> = Vec::new();
        self.encode(&mut buf);
        proof {
            assert(buf@ =~= rpb_mod_fun_bytes(self@));
        }
        buf
    }

    /// Reads the fields of `buf` into this message, as `prost` merges a
    /// `RpbModFun`.
    pub fn merge_from(&mut self, buf: &[u8], ctx: u32) -> (res: Result<(), DecodeError>)
        ensures
            match res {
                Ok(()) => rpb_mod_fun_merge(old(self)@, buf@, ctx as nat) == Some(final(self)@),
                Err(_) => rpb_mod_fun_merge(old(self)@, buf@, ctx as nat) is None,
            },
        decreases ctx, buf@.len(),
    {
        let mut rest = buf;
        while rest.len() > 0
            invariant
                rpb_mod_fun_merge(old(self)@, buf@, ctx as nat) == rpb_mod_fun_merge(self@, rest@, ctx as nat),
                rest@.len() <= buf@.len(),
            decreases rest@.len(),
        {
            let (f, r2) = match read_field(rest, ctx) {
                Ok(p) => p,
                Err(e) => return Err(e),
            };
            proof {
                lemma_field_parse_len(rest@, ctx as nat);
            }
            match self.apply_field(f, ctx) {
                Ok(()) => {},
                Err(e) => return Err(e),
            }
            rest = r2;
        }
        Ok(())
    }

    /// Reads a `RpbModFun` from `buf`, with the full allowance of 100.
    pub fn decode(buf: &[u8]) -> (res: Result<RpbModFun, DecodeError>)
        ensures
            match res {
                Ok(m) => rpb_mod_fun_decode(buf@) == Some(m@),
                Err(_) => rpb_mod_fun_decode(buf@) is None,
            },
    {
        let mut m = RpbModFun::empty();
        match m.merge_from(buf, 100) {
            Ok(()) => Ok(m),
            Err(e) => Err(e),
        }
    }

    fn apply_field(&mut self, f: Field, ctx: u32) -> (res: Result<(), DecodeError>)
        ensures
            match res {
                Ok(()) => rpb_mod_fun_apply(old(self)@, f@, ctx as nat) == Some(final(self)@),
                Err(_) => rpb_mod_fun_apply(old(self)@, f@, ctx as nat) is None,
            },
        decreases ctx, 0nat,
    {
        let Field { tag, data } = f;
        if tag == 1 {
            match data {
                FieldData::Bytes(b) => {
                    self.module = b;
                    Ok(())
                },
                _ => Err(decode_error("invalid wire type")),
            }
        } else if tag == 2 {
            match data {
                FieldData::Bytes(b) => {
                    self.function = b;
                    Ok(())
                },
                _ => Err(decode_error("invalid wire type")),
            }
        } else if ctx == 0 {
            Err(decode_error("recursion limit reached"))
        } else {
            Ok(())
        }
    }

}

impl WireMessage for RpbModFun {
    open spec fn wire_bytes(&self) -> Seq<u8> {
        rpb_mod_fun_bytes(self@)
    }

    fn encode(&self, buf: &mut Vec<u8>) {
        let ghost start = buf@;
        put_bytes_field(buf, 1, self.module.as_slice());
        let ghost mut acc = bytes_piece(1, self@.module);
        proof {
            assert(buf@ == start + acc);
        }
        put_bytes_field(buf, 2, self.function.as_slice());
        proof {
            lemma_concat_assoc(start, acc, bytes_piece(2, self@.function));
            acc = acc + bytes_piece(2, self@.function);
        }
        proof {
            assert(acc == rpb_mod_fun_bytes(self@));
        }
    }
}

/// A commit hook: a module and function, or a name.
#[derive(Clone, Debug)]
pub struct RpbCommitHook {
    pub modfun: Option<RpbModFun>,
    pub name: Option<Vec<u8>>,
}

/// The value of a `RpbCommitHook`.
pub struct RpbCommitHookView {
    pub modfun: Option<RpbModFunView>,
    pub name: Option<Seq<u8>>,
}

impl View for RpbCommitHook {
    type V = RpbCommitHookView;

    open spec fn view(&self) -> RpbCommitHookView {
        RpbCommitHookView {
            modfun: match self.modfun { Some(m) => Some(m@), None => None },
            name: opt_bytes_view(self.name),
        }
    }
}

/// A `RpbCommitHook` with no field set.
pub open spec fn rpb_commit_hook_empty() -> RpbCommitHookView {
    RpbCommitHookView {
        modfun: None,
        name: None,
    }
}

/// The bytes of a `RpbCommitHook`: its fields in the order of their tags.
pub open spec fn rpb_commit_hook_bytes(m: RpbCommitHookView) -> Seq<u8> {
    opt_bytes_piece(1, match m.modfun { Some(s) => Some(rpb_mod_fun_bytes(s)), None => None })
        + opt_bytes_piece(2, m.name)
}

/// What one field read from the wire does to a `RpbCommitHook`: `None` where
/// the field has a known tag and a payload of another wire type, or a
/// nested message that does not read. Fields of unknown tags are skipped.
/// `ctx` is what is left of the nesting allowance of 100 messages: a
/// nested message, or an unknown field, needs some of it.
pub open spec fn rpb_commit_hook_apply(m: RpbCommitHookView, f: RawField, ctx: nat) -> Option<RpbCommitHookView>
    decreases ctx, 0nat,
{
    if f.tag == 1 {
        match f.data {
            RawData::Bytes(b) => if ctx == 0 {
                None
            } else {
                match rpb_mod_fun_merge(match m.modfun { Some(s) => s, None => rpb_mod_fun_empty() }, b, (ctx - 1) as nat) {
                    Some(s) => Some(RpbCommitHookView { modfun: Some(s), ..m }),
                    None => None,
                }
            },
            _ => None,
        }
    } else if f.tag == 2 {
        match f.data {
            RawData::Bytes(b) => Some(RpbCommitHookView { name: Some(b), ..m }),
            _ => None,
        }
    } else if ctx == 0 {
        None
    } else {
        Some(m)
    }
}

/// Reads the fields of `s` into `m`, one after the other, as `prost`
/// merges a `RpbCommitHook`.
pub open spec fn rpb_commit_hook_merge(m: RpbCommitHookView, s: Seq<u8>, ctx: nat) -> Option<RpbCommitHookView>
    decreases ctx, s.len(),
{
    if s.len() == 0 {
        Some(m)
    } else {
        match field_parse(s, ctx) {
            Some((f, n)) => if 1 <= n <= s.len() {
                match rpb_commit_hook_apply(m, f, ctx) {
                    Some(m2) => rpb_commit_hook_merge(m2, s.skip(n as int), ctx),
                    None => None,
                }
            } else {
                None
            },
            None => None,
        }
    }
}

/// A `RpbCommitHook` read from `s`, or `None` where `s` is malformed: its
/// fields merged into an empty message with the full allowance of 100.
pub open spec fn rpb_commit_hook_decode(s: Seq<u8>) -> Option<RpbCommitHookView> {
    rpb_commit_hook_merge(rpb_commit_hook_empty(), s, 100)
}

impl RpbCommitHook {
    /// A `RpbCommitHook` with no field set.
    pub fn empty() -> (r: RpbCommitHook)
        ensures
            r@ == rpb_commit_hook_empty(),
    {
        let r = RpbCommitHook {
            modfun: None,
            name: None,
        };
        r
    }

    /// The bytes of this message, in a new buffer.
    pub fn encode_to_vec(&self) -> (r: Vec<u8>)
        ensures
            r@ == rpb_commit_hook_bytes(self@),
    {
        let mut buf: Vec<u8> = Vec::new();
        self.encode(&mut buf);
        proof {
            assert(buf@ =~= rpb_commit_hook_bytes(self@));
        }
        buf
    }

    /// Reads the fields of `buf` into this message, as `prost` merges a
    /// `RpbCommitHook`.
    pub fn merge_from(&mut self, buf: &[u8], ctx: u32) -> (res: Result<(), DecodeError>)
        ensures
            match res {
                Ok(()) => rpb_commit_hook_merge(old(self)@, buf@, ctx as nat) == Some(final(self)@),
                Err(_) => rpb_commit_hook_merge(old(self)@, buf@, ctx as nat) is None,
            },
        decreases ctx, buf@.len(),
    {
        let mut rest = buf;
        while rest.len() > 0
            invariant
                rpb_commit_hook_merge(old(self)@, buf@, ctx as nat) == rpb_commit_hook_merge(self@, rest@, ctx as nat),
                rest@.len() <= buf@.len(),
            decreases rest@.len(),
        {
            let (f, r2) = match read_field(rest, ctx) {
                Ok(p) => p,
                Err(e) => return Err(e),
            };
            proof {
                lemma_field_parse_len(rest@, ctx as nat);
            }
            match self.apply_field(f, ctx) {
                Ok(()) => {},
                Err(e) => return Err(e),
            }
            rest = r2;
        }
        Ok(())
    }

    /// Reads a `RpbCommitHook` from `buf`, with the full allowance of 100.
    pub fn decode(buf: &[u8]) -> (res: Result<RpbCommitHook, DecodeError>)
        ensures
            match res {
                Ok(m) => rpb_commit_hook_decode(buf@) == Some(m@),
                Err(_) => rpb_commit_hook_decode(buf@) is None,
            },
    {
        let mut m = RpbCommitHook::empty();
        match m.merge_from(buf, 100) {
            Ok(()) => Ok(m),
            Err(e) => Err(e),
        }
    }

    fn apply_field(&mut self, f: Field, ctx: u32) -> (res: Result<(), DecodeError>)
        ensures
            match res {
                Ok(()) => rpb_commit_hook_apply(old(self)@, f@, ctx as nat) == Some(final(self)@),
                Err(_) => rpb_commit_hook_apply(old(self)@, f@, ctx as nat) is None,
            },
        decreases ctx, 0nat,
    {
        let Field { tag, data } = f;
        if tag == 1 {
            match data {
                FieldData::Bytes(b) => {
                    if ctx == 0 {
                        return Err(decode_error("recursion limit reached"));
                    }
                    let mut s = match self.modfun.take() {
                        Some(s) => s,
                        None => RpbModFun::empty(),
                    };
                    match s.merge_from(b.as_slice(), ctx - 1) {
                        Ok(()) => {
                            self.modfun = Some(s);
                            Ok(())
                        },
                        Err(e) => Err(e),
                    }
                },
                _ => Err(decode_error("invalid wire type")),
            }
        } else if tag == 2 {
            match data {
                FieldData::Bytes(b) => {
                    self.name = Some(b);
                    Ok(())
                },
                _ => Err(decode_error("invalid wire type")),
            }
        } else if ctx == 0 {
            Err(decode_error("recursion limit reached"))
        } else {
            Ok(())
        }
    }

}

impl WireMessage for RpbCommitHook {
    open spec fn wire_bytes(&self) -> Seq<u8> {
        rpb_commit_hook_bytes(self@)
    }

    fn encode(&self, buf: &mut Vec<u8>) {
        let ghost start = buf@;
        put_opt_message(buf, 1, &self.modfun);
        let ghost mut acc = opt_bytes_piece(1, match self@.modfun { Some(s) => Some(rpb_mod_fun_bytes(s)), None => None });
        proof {
            assert(match self.modfun { Some(x) => Some(x.wire_bytes()), None => None } == match self@.modfun { Some(s) => Some(rpb_mod_fun_bytes(s)), None => None });
            assert(buf@ == start + acc);
        }
        put_opt_bytes(buf, 2, &self.name);
        proof {
            lemma_concat_assoc(start, acc, opt_bytes_piece(2, self@.name));
            acc = acc + opt_bytes_piece(2, self@.name);
        }
        proof {
            assert(acc == rpb_commit_hook_bytes(self@));
        }
    }
}

/// The properties of a bucket or bucket type.
#[derive(Clone, Debug)]
pub struct RpbBucketProps {
    pub n_val: Option<u32>,
    pub allow_mult: Option<bool>,
    pub last_write_wins: Option<bool>,
    pub precommit: Vec<RpbCommitHook>,
    pub has_precommit: Option<bool>,
    pub postcommit: Vec<RpbCommitHook>,
    pub has_postcommit: Option<bool>,
    pub chash_keyfun: Option<RpbModFun>,
    pub linkfun: Option<RpbModFun>,
    pub old_vclock: Option<u32>,
    pub young_vclock: Option<u32>,
    pub big_vclock: Option<u32>,
    pub small_vclock: Option<u32>,
    pub pr: Option<u32>,
    pub r: Option<u32>,
    pub w: Option<u32>,
    pub pw: Option<u32>,
    pub dw: Option<u32>,
    pub rw: Option<u32>,
    pub basic_quorum: Option<bool>,
    pub notfound_ok: Option<bool>,
    pub backend: Option<Vec<u8>>,
    pub search: Option<bool>,
    pub repl: Option<i32>,
    pub search_index: Option<Vec<u8>>,
    pub datatype: Option<Vec<u8>>,
    pub consistent: Option<bool>,
    pub write_once: Option<bool>,
    pub hll_precision: Option<u32>,
    pub ttl: Option<u32>,
}

/// The value of a `RpbBucketProps`.
pub struct RpbBucketPropsView {
    pub n_val: Option<u32>,
    pub allow_mult: Option<bool>,
    pub last_write_wins: Option<bool>,
    pub precommit: Seq<RpbCommitHookView>,
    pub has_precommit: Option<bool>,
    pub postcommit: Seq<RpbCommitHookView>,
    pub has_postcommit: Option<bool>,
    pub chash_keyfun: Option<RpbModFunView>,
    pub linkfun: Option<RpbModFunView>,
    pub old_vclock: Option<u32>,
    pub young_vclock: Option<u32>,
    pub big_vclock: Option<u32>,
    pub small_vclock: Option<u32>,
    pub pr: Option<u32>,
    pub r: Option<u32>,
    pub w: Option<u32>,
    pub pw: Option<u32>,
    pub dw: Option<u32>,
    pub rw: Option<u32>,
    pub basic_quorum: Option<bool>,
    pub notfound_ok: Option<bool>,
    pub backend: Option<Seq<u8>>,
    pub search: Option<bool>,
    pub repl: Option<i32>,
    pub search_index: Option<Seq<u8>>,
    pub datatype: Option<Seq<u8>>,
    pub consistent: Option<bool>,
    pub write_once: Option<bool>,
    pub hll_precision: Option<u32>,
    pub ttl: Option<u32>,
}

impl View for RpbBucketProps {
    type V = RpbBucketPropsView;

    open spec fn view(&self) -> RpbBucketPropsView {
        RpbBucketPropsView {
            n_val: self.n_val,
            allow_mult: self.allow_mult,
            last_write_wins: self.last_write_wins,
            precommit: self.precommit@.map_values(|m: RpbCommitHook| m@),
            has_precommit: self.has_precommit,
            postcommit: self.postcommit@.map_values(|m: RpbCommitHook| m@),
            has_postcommit: self.has_postcommit,
            chash_keyfun: match self.chash_keyfun { Some(m) => Some(m@), None => None },
            linkfun: match self.linkfun { Some(m) => Some(m@), None => None },
            old_vclock: self.old_vclock,
            young_vclock: self.young_vclock,
            big_vclock: self.big_vclock,
            small_vclock: self.small_vclock,
            pr: self.pr,
            r: self.r,
            w: self.w,
            pw: self.pw,
            dw: self.dw,
            rw: self.rw,
            basic_quorum: self.basic_quorum,
            notfound_ok: self.notfound_ok,
            backend: opt_bytes_view(self.backend),
            search: self.search,
            repl: self.repl,
            search_index: opt_bytes_view(self.search_index),
            datatype: opt_bytes_view(self.datatype),
            consistent: self.consistent,
            write_once: self.write_once,
            hll_precision: self.hll_precision,
            ttl: self.ttl,
        }
    }
}

/// A `RpbBucketProps` with no field set.
pub open spec fn rpb_bucket_props_empty() -> RpbBucketPropsView {
    RpbBucketPropsView {
        n_val: None,
        allow_mult: None,
        last_write_wins: None,
        precommit: Seq::empty(),
        has_precommit: None,
        postcommit: Seq::empty(),
        has_postcommit: None,
        chash_keyfun: None,
        linkfun: None,
        old_vclock: None,
        young_vclock: None,
        big_vclock: None,
        small_vclock: None,
        pr: None,
        r: None,
        w: None,
        pw: None,
        dw: None,
        rw: None,
        basic_quorum: None,
        notfound_ok: None,
        backend: None,
        search: None,
        repl: None,
        search_index: None,
        datatype: None,
        consistent: None,
        write_once: None,
        hll_precision: None,
        ttl: None,
    }
}

/// The bytes of a `RpbBucketProps`: its fields in the order of their tags.
pub open spec fn rpb_bucket_props_bytes(m: RpbBucketPropsView) -> Seq<u8> {
    opt_varint_piece(1, opt_u32_code(m.n_val))
        + opt_varint_piece(2, opt_bool_code(m.allow_mult))
        + opt_varint_piece(3, opt_bool_code(m.last_write_wins))
        + rep_bytes_piece(4, m.precommit.map_values(|s: RpbCommitHookView| rpb_commit_hook_bytes(s)))
        + opt_varint_piece(5, opt_bool_code(m.has_precommit))
        + rep_bytes_piece(6, m.postcommit.map_values(|s: RpbCommitHookView| rpb_commit_hook_bytes(s)))
        + opt_varint_piece(7, opt_bool_code(m.has_postcommit))
        + opt_bytes_piece(8, match m.chash_keyfun { Some(s) => Some(rpb_mod_fun_bytes(s)), None => None })
        + opt_bytes_piece(9, match m.linkfun { Some(s) => Some(rpb_mod_fun_bytes(s)), None => None })
        + opt_varint_piece(10, opt_u32_code(m.old_vclock))
        + opt_varint_piece(11, opt_u32_code(m.young_vclock))
        + opt_varint_piece(12, opt_u32_code(m.big_vclock))
        + opt_varint_piece(13, opt_u32_code(m.small_vclock))
        + opt_varint_piece(14, opt_u32_code(m.pr))
        + opt_varint_piece(15, opt_u32_code(m.r))
        + opt_varint_piece(16, opt_u32_code(m.w))
        + opt_varint_piece(17, opt_u32_code(m.pw))
        + opt_varint_piece(18, opt_u32_code(m.dw))
        + opt_varint_piece(19, opt_u32_code(m.rw))
        + opt_varint_piece(20, opt_bool_code(m.basic_quorum))
        + opt_varint_piece(21, opt_bool_code(m.notfound_ok))
        + opt_bytes_piece(22, m.backend)
        + opt_varint_piece(23, opt_bool_code(m.search))
        + opt_varint_piece(24, opt_i32_code(m.repl))
        + opt_bytes_piece(25, m.search_index)
        + opt_bytes_piece(26, m.datatype)
        + opt_varint_piece(27, opt_bool_code(m.consistent))
        + opt_varint_piece(28, opt_bool_code(m.write_once))
        + opt_varint_piece(29, opt_u32_code(m.hll_precision))
        + opt_varint_piece(30, opt_u32_code(m.ttl))
}

/// What one field read from the wire does to a `RpbBucketProps`: `None` where
/// the field has a known tag and a payload of another wire type, or a
/// nested message that does not read. Fields of unknown tags are skipped.
/// `ctx` is what is left of the nesting allowance of 100 messages: a
/// nested message, or an unknown field, needs some of it.
pub open spec fn rpb_bucket_props_apply(m: RpbBucketPropsView, f: RawField, ctx: nat) -> Option<RpbBucketPropsView>
    decreases ctx, 0nat,
{
    if f.tag == 1 {
        match f.data {
            RawData::Varint(v) => Some(RpbBucketPropsView { n_val: Some(u32_of_code(v)), ..m }),
            _ => None,
        }
    } else if f.tag == 2 {
        match f.data {
            RawData::Varint(v) => Some(RpbBucketPropsView { allow_mult: Some(v != 0), ..m }),
            _ => None,
        }
    } else if f.tag == 3 {
        match f.data {
            RawData::Varint(v) => Some(RpbBucketPropsView { last_write_wins: Some(v != 0), ..m }),
            _ => None,
        }
    } else if f.tag == 4 {
        match f.data {
            RawData::Bytes(b) => if ctx == 0 {
                None
            } else {
                match rpb_commit_hook_merge(rpb_commit_hook_empty(), b, (ctx - 1) as nat) {
                    Some(s) => Some(RpbBucketPropsView { precommit: m.precommit.push(s), ..m }),
                    None => None,
                }
            },
            _ => None,
        }
    } else if f.tag == 5 {
        match f.data {
            RawData::Varint(v) => Some(RpbBucketPropsView { has_precommit: Some(v != 0), ..m }),
            _ => None,
        }
    } else if f.tag == 6 {
        match f.data {
            RawData::Bytes(b) => if ctx == 0 {
                None
            } else {
                match rpb_commit_hook_merge(rpb_commit_hook_empty(), b, (ctx - 1) as nat) {
                    Some(s) => Some(RpbBucketPropsView { postcommit: m.postcommit.push(s), ..m }),
                    None => None,
                }
            },
            _ => None,
        }
    } else if f.tag == 7 {
        match f.data {
            RawData::Varint(v) => Some(RpbBucketPropsView { has_postcommit: Some(v != 0), ..m }),
            _ => None,
        }
    } else if f.tag == 8 {
        match f.data {
            RawData::Bytes(b) => if ctx == 0 {
                None
            } else {
                match rpb_mod_fun_merge(match m.chash_keyfun { Some(s) => s, None => rpb_mod_fun_empty() }, b, (ctx - 1) as nat) {
                    Some(s) => Some(RpbBucketPropsView { chash_keyfun: Some(s), ..m }),
                    None => None,
                }
            },
            _ => None,
        }
    } else if f.tag == 9 {
        match f.data {
            RawData::Bytes(b) => if ctx == 0 {
                None
            } else {
                match rpb_mod_fun_merge(match m.linkfun { Some(s) => s, None => rpb_mod_fun_empty() }, b, (ctx - 1) as nat) {
                    Some(s) => Some(RpbBucketPropsView { linkfun: Some(s), ..m }),
                    None => None,
                }
            },
            _ => None,
        }
    } else if f.tag == 10 {
        match f.data {
            RawData::Varint(v) => Some(RpbBucketPropsView { old_vclock: Some(u32_of_code(v)), ..m }),
            _ => None,
        }
    } else if f.tag == 11 {
        match f.data {
            RawData::Varint(v) => Some(RpbBucketPropsView { young_vclock: Some(u32_of_code(v)), ..m }),
            _ => None,
        }
    } else if f.tag == 12 {
        match f.data {
            RawData::Varint(v) => Some(RpbBucketPropsView { big_vclock: Some(u32_of_code(v)), ..m }),
            _ => None,
        }
    } else if f.tag == 13 {
        match f.data {
            RawData::Varint(v) => Some(RpbBucketPropsView { small_vclock: Some(u32_of_code(v)), ..m }),
            _ => None,
        }
    } else if f.tag == 14 {
        match f.data {
            RawData::Varint(v) => Some(RpbBucketPropsView { pr: Some(u32_of_code(v)), ..m }),
            _ => None,
        }
    } else if f.tag == 15 {
        match f.data {
            RawData::Varint(v) => Some(RpbBucketPropsView { r: Some(u32_of_code(v)), ..m }),
            _ => None,
        }
    } else if f.tag == 16 {
        match f.data {
            RawData::Varint(v) => Some(RpbBucketPropsView { w: Some(u32_of_code(v)), ..m }),
            _ => None,
        }
    } else if f.tag == 17 {
        match f.data {
            RawData::Varint(v) => Some(RpbBucketPropsView { pw: Some(u32_of_code(v)), ..m }),
            _ => None,
        }
    } else if f.tag == 18 {
        match f.data {
            RawData::Varint(v) => Some(RpbBucketPropsView { dw: Some(u32_of_code(v)), ..m }),
            _ => None,
        }
    } else if f.tag == 19 {
        match f.data {
            RawData::Varint(v) => Some(RpbBucketPropsView { rw: Some(u32_of_code(v)), ..m }),
            _ => None,
        }
    } else if f.tag == 20 {
        match f.data {
            RawData::Varint(v) => Some(RpbBucketPropsView { basic_quorum: Some(v != 0), ..m }),
            _ => None,
        }
    } else if f.tag == 21 {
        match f.data {
            RawData::Varint(v) => Some(RpbBucketPropsView { notfound_ok: Some(v != 0), ..m }),
            _ => None,
        }
    } else if f.tag == 22 {
        match f.data {
            RawData::Bytes(b) => Some(RpbBucketPropsView { backend: Some(b), ..m }),
            _ => None,
        }
    } else if f.tag == 23 {
        match f.data {
            RawData::Varint(v) => Some(RpbBucketPropsView { search: Some(v != 0), ..m }),
            _ => None,
        }
    } else if f.tag == 24 {
        match f.data {
            RawData::Varint(v) => Some(RpbBucketPropsView { repl: Some(i32_of_code(v)), ..m }),
            _ => None,
        }
    } else if f.tag == 25 {
        match f.data {
            RawData::Bytes(b) => Some(RpbBucketPropsView { search_index: Some(b), ..m }),
            _ => None,
        }
    } else if f.tag == 26 {
        match f.data {
            RawData::Bytes(b) => Some(RpbBucketPropsView { datatype: Some(b), ..m }),
            _ => None,
        }
    } else if f.tag == 27 {
        match f.data {
            RawData::Varint(v) => Some(RpbBucketPropsView { consistent: Some(v != 0), ..m }),
            _ => None,
        }
    } else if f.tag == 28 {
        match f.data {
            RawData::Varint(v) => Some(RpbBucketPropsView { write_once: Some(v != 0), ..m }),
            _ => None,
        }
    } else if f.tag == 29 {
        match f.data {
            RawData::Varint(v) => Some(RpbBucketPropsView { hll_precision: Some(u32_of_code(v)), ..m }),
            _ => None,
        }
    } else if f.tag == 30 {
        match f.data {
            RawData::Varint(v) => Some(RpbBucketPropsView { ttl: Some(u32_of_code(v)), ..m }),
            _ => None,
        }
    } else if ctx == 0 {
        None
    } else {
        Some(m)
    }
}

/// Reads the fields of `s` into `m`, one after the other, as `prost`
/// merges a `RpbBucketProps`.
pub open spec fn rpb_bucket_props_merge(m: RpbBucketPropsView, s: Seq<u8>, ctx: nat) -> Option<RpbBucketPropsView>
    decreases ctx, s.len(),
{
    if s.len() == 0 {
        Some(m)
    } else {
        match field_parse(s, ctx) {
            Some((f, n)) => if 1 <= n <= s.len() {
                match rpb_bucket_props_apply(m, f, ctx) {
                    Some(m2) => rpb_bucket_props_merge(m2, s.skip(n as int), ctx),
                    None => None,
                }
            } else {
                None
            },
            None => None,
        }
    }
}

/// A `RpbBucketProps` read from `s`, or `None` where `s` is malformed: its
/// fields merged into an empty message with the full allowance of 100.
pub open spec fn rpb_bucket_props_decode(s: Seq<u8>) -> Option<RpbBucketPropsView> {
    rpb_bucket_props_merge(rpb_bucket_props_empty(), s, 100)
}

impl RpbBucketProps {
    /// A `RpbBucketProps` with no field set.
    pub fn empty() -> (r: RpbBucketProps)
        ensures
            r@ == rpb_bucket_props_empty(),
    {
        let r = RpbBucketProps {
            n_val: None,
            allow_mult: None,
            last_write_wins: None,
            precommit: Vec::new(),
            has_precommit: None,
            postcommit: Vec::new(),
            has_postcommit: None,
            chash_keyfun: None,
            linkfun: None,
            old_vclock: None,
            young_vclock: None,
            big_vclock: None,
            small_vclock: None,
            pr: None,
            r: None,
            w: None,
            pw: None,
            dw: None,
            rw: None,
            basic_quorum: None,
            notfound_ok: None,
            backend: None,
            search: None,
            repl: None,
            search_index: None,
            datatype: None,
            consistent: None,
            write_once: None,
            hll_precision: None,
            ttl: None,
        };
        proof {
            assert(r.precommit@.map_values(|m: RpbCommitHook| m@) =~= Seq::<RpbCommitHookView>::empty());
            assert(r.postcommit@.map_values(|m: RpbCommitHook| m@) =~= Seq::<RpbCommitHookView>::empty());
        }
        r
    }

    /// The bytes of this message, in a new buffer.
    pub fn encode_to_vec(&self) -> (r: Vec<u8>)
        ensures
            r@ == rpb_bucket_props_bytes(self@),
    {
        let mut buf: Vec<u8> = Vec::new();
        self.encode(&mut buf);
        proof {
            assert(buf@ =~= rpb_bucket_props_bytes(self@));
        }
        buf
    }

    /// Reads the fields of `buf` into this message, as `prost` merges a
    /// `RpbBucketProps`.
    pub fn merge_from(&mut self, buf: &[u8], ctx: u32) -> (res: Result<(), DecodeError>)
        ensures
            match res {
                Ok(()) => rpb_bucket_props_merge(old(self)@, buf@, ctx as nat) == Some(final(self)@),
                Err(_) => rpb_bucket_props_merge(old(self)@, buf@, ctx as nat) is None,
            },
        decreases ctx, buf@.len(),
    {
        let mut rest = buf;
        while rest.len() > 0
            invariant
                rpb_bucket_props_merge(old(self)@, buf@, ctx as nat) == rpb_bucket_props_merge(self@, rest@, ctx as nat),
                rest@.len() <= buf@.len(),
            decreases rest@.len(),
        {
            let (f, r2) = match read_field(rest, ctx) {
                Ok(p) => p,
                Err(e) => return Err(e),
            };
            proof {
                lemma_field_parse_len(rest@, ctx as nat);
            }
            match self.apply_field(f, ctx) {
                Ok(()) => {},
                Err(e) => return Err(e),
            }
            rest = r2;
        }
        Ok(())
    }

    /// Reads a `RpbBucketProps` from `buf`, with the full allowance of 100.
    pub fn decode(buf: &[u8]) -> (res: Result<RpbBucketProps, DecodeError>)
        ensures
            match res {
                Ok(m) => rpb_bucket_props_decode(buf@) == Some(m@),
                Err(_) => rpb_bucket_props_decode(buf@) is None,
            },
    {
        let mut m = RpbBucketProps::empty();
        match m.merge_from(buf, 100) {
            Ok(()) => Ok(m),
            Err(e) => Err(e),
        }
    }

    fn apply_field(&mut self, f: Field, ctx: u32) -> (res: Result<(), DecodeError>)
        ensures
            match res {
                Ok(()) => rpb_bucket_props_apply(old(self)@, f@, ctx as nat) == Some(final(self)@),
                Err(_) => rpb_bucket_props_apply(old(self)@, f@, ctx as nat) is None,
            },
        decreases ctx, 0nat,
    {
        let Field { tag, data } = f;
        if tag == 1 {
            match data {
                FieldData::Varint(v) => {
                    self.n_val = Some(u32_from_code(v));
                    Ok(())
                },
                _ => Err(decode_error("invalid wire type")),
            }
        } else if tag == 2 {
            match data {
                FieldData::Varint(v) => {
                    self.allow_mult = Some(v != 0);
                    Ok(())
                },
                _ => Err(decode_error("invalid wire type")),
            }
        } else if tag == 3 {
            match data {
                FieldData::Varint(v) => {
                    self.last_write_wins = Some(v != 0);
                    Ok(())
                },
                _ => Err(decode_error("invalid wire type")),
            }
        } else if tag == 4 {
            match data {
                FieldData::Bytes(b) => {
                    if ctx == 0 {
                        return Err(decode_error("recursion limit reached"));
                    }
                    let mut s = RpbCommitHook::empty();
                    match s.merge_from(b.as_slice(), ctx - 1) {
                        Ok(()) => {
                            let ghost prev = self.precommit@.map_values(|m: RpbCommitHook| m@);
                            let ghost sv = s@;
                            self.precommit.push(s);
                            proof {
                                assert(self.precommit@.map_values(|m: RpbCommitHook| m@) =~= prev.push(sv));
                            }
                            Ok(())
                        },
                        Err(e) => Err(e),
                    }
                },
                _ => Err(decode_error("invalid wire type")),
            }
        } else if tag == 5 {
            match data {
                FieldData::Varint(v) => {
                    self.has_precommit = Some(v != 0);
                    Ok(())
                },
                _ => Err(decode_error("invalid wire type")),
            }
        } else if tag == 6 {
            match data {
                FieldData::Bytes(b) => {
                    if ctx == 0 {
                        return Err(decode_error("recursion limit reached"));
                    }
                    let mut s = RpbCommitHook::empty();
                    match s.merge_from(b.as_slice(), ctx - 1) {
                        Ok(()) => {
                            let ghost prev = self.postcommit@.map_values(|m: RpbCommitHook| m@);
                            let ghost sv = s@;
                            self.postcommit.push(s);
                            proof {
                                assert(self.postcommit@.map_values(|m: RpbCommitHook| m@) =~= prev.push(sv));
                            }
                            Ok(())
                        },
                        Err(e) => Err(e),
                    }
                },
                _ => Err(decode_error("invalid wire type")),
            }
        } else if tag == 7 {
            match data {
                FieldData::Varint(v) => {
                    self.has_postcommit = Some(v != 0);
                    Ok(())
                },
                _ => Err(decode_error("invalid wire type")),
            }
        } else if tag == 8 {
            match data {
                FieldData::Bytes(b) => {
                    if ctx == 0 {
                        return Err(decode_error("recursion limit reached"));
                    }
                    let mut s = match self.chash_keyfun.take() {
                        Some(s) => s,
                        None => RpbModFun::empty(),
                    };
                    match s.merge_from(b.as_slice(), ctx - 1) {
                        Ok(()) => {
                            self.chash_keyfun = Some(s);
                            Ok(())
                        },
                        Err(e) => Err(e),
                    }
                },
                _ => Err(decode_error("invalid wire type")),
            }
        } else if tag == 9 {
            match data {
                FieldData::Bytes(b) => {
                    if ctx == 0 {
                        return Err(decode_error("recursion limit reached"));
                    }
                    let mut s = match self.linkfun.take() {
                        Some(s) => s,
                        None => RpbModFun::empty(),
                    };
                    match s.merge_from(b.as_slice(), ctx - 1) {
                        Ok(()) => {
                            self.linkfun = Some(s);
                            Ok(())
                        },
                        Err(e) => Err(e),
                    }
                },
                _ => Err(decode_error("invalid wire type")),
            }
        } else if tag == 10 {
            match data {
                FieldData::Varint(v) => {
                    self.old_vclock = Some(u32_from_code(v));
                    Ok(())
                },
                _ => Err(decode_error("invalid wire type")),
            }
        } else if tag == 11 {
            match data {
                FieldData::Varint(v) => {
                    self.young_vclock = Some(u32_from_code(v));
                    Ok(())
                },
                _ => Err(decode_error("invalid wire type")),
            }
        } else if tag == 12 {
            match data {
                FieldData::Varint(v) => {
                    self.big_vclock = Some(u32_from_code(v));
                    Ok(())
                },
                _ => Err(decode_error("invalid wire type")),
            }
        } else if tag == 13 {
            match data {
                FieldData::Varint(v) => {
                    self.small_vclock = Some(u32_from_code(v));
                    Ok(())
                },
                _ => Err(decode_error("invalid wire type")),
            }
        } else if tag == 14 {
            match data {
                FieldData::Varint(v) => {
                    self.pr = Some(u32_from_code(v));
                    Ok(())
                },
                _ => Err(decode_error("invalid wire type")),
            }
        } else if tag == 15 {
            match data {
                FieldData::Varint(v) => {
                    self.r = Some(u32_from_code(v));
                    Ok(())
                },
                _ => Err(decode_error("invalid wire type")),
            }
        } else if tag == 16 {
            match data {
                FieldData::Varint(v) => {
                    self.w = Some(u32_from_code(v));
                    Ok(())
                },
                _ => Err(decode_error("invalid wire type")),
            }
        } else if tag == 17 {
            match data {
                FieldData::Varint(v) => {
                    self.pw = Some(u32_from_code(v));
                    Ok(())
                },
                _ => Err(decode_error("invalid wire type")),
            }
        } else if tag == 18 {
            match data {
                FieldData::Varint(v) => {
                    self.dw = Some(u32_from_code(v));
                    Ok(())
                },
                _ => Err(decode_error("invalid wire type")),
            }
        } else if tag == 19 {
            match data {
                FieldData::Varint(v) => {
                    self.rw = Some(u32_from_code(v));
                    Ok(())
                },
                _ => Err(decode_error("invalid wire type")),
            }
        } else if tag == 20 {
            match data {
                FieldData::Varint(v) => {
                    self.basic_quorum = Some(v != 0);
                    Ok(())
                },
                _ => Err(decode_error("invalid wire type")),
            }
        } else if tag == 21 {
            match data {
                FieldData::Varint(v) => {
                    self.notfound_ok = Some(v != 0);
                    Ok(())
                },
                _ => Err(decode_error("invalid wire type")),
            }
        } else if tag == 22 {
            match data {
                FieldData::Bytes(b) => {
                    self.backend = Some(b);
                    Ok(())
                },
                _ => Err(decode_error("invalid wire type")),
            }
        } else if tag == 23 {
            match data {
                FieldData::Varint(v) => {
                    self.search = Some(v != 0);
                    Ok(())
                },
                _ => Err(decode_error("invalid wire type")),
            }
        } else if tag == 24 {
            match data {
                FieldData::Varint(v) => {
                    self.repl = Some(i32_from_code(v));
                    Ok(())
                },
                _ => Err(decode_error("invalid wire type")),
            }
        } else if tag == 25 {
            match data {
                FieldData::Bytes(b) => {
                    self.search_index = Some(b);
                    Ok(())
                },
                _ => Err(decode_error("invalid wire type")),
            }
        } else if tag == 26 {
            match data {
                FieldData::Bytes(b) => {
                    self.datatype = Some(b);
                    Ok(())
                },
                _ => Err(decode_error("invalid wire type")),
            }
        } else if tag == 27 {
            match data {
                FieldData::Varint(v) => {
                    self.consistent = Some(v != 0);
                    Ok(())
                },
                _ => Err(decode_error("invalid wire type")),
            }
        } else if tag == 28 {
            match data {
                FieldData::Varint(v) => {
                    self.write_once = Some(v != 0);
                    Ok(())
                },
                _ => Err(decode_error("invalid wire type")),
            }
        } else if tag == 29 {
            match data {
                FieldData::Varint(v) => {
                    self.hll_precision = Some(u32_from_code(v));
                    Ok(())
                },
                _ => Err(decode_error("invalid wire type")),
            }
        } else if tag == 30 {
            match data {
                FieldData::Varint(v) => {
                    self.ttl = Some(u32_from_code(v));
                    Ok(())
                },
                _ => Err(decode_error("invalid wire type")),
            }
        } else if ctx == 0 {
            Err(decode_error("recursion limit reached"))
        } else {
            Ok(())
        }
    }

}

impl WireMessage for RpbBucketProps {
    open spec fn wire_bytes(&self) -> Seq<u8> {
        rpb_bucket_props_bytes(self@)
    }

    fn encode(&self, buf: &mut Vec<u8>) {
        let ghost start = buf@;
        put_opt_u32(buf, 1, self.n_val);
        let ghost mut acc = opt_varint_piece(1, opt_u32_code(self@.n_val));
        proof {
            assert(buf@ == start + acc);
        }
        put_opt_bool(buf, 2, self.allow_mult);
        proof {
            lemma_concat_assoc(start, acc, opt_varint_piece(2, opt_bool_code(self@.allow_mult)));
            acc = acc + opt_varint_piece(2, opt_bool_code(self@.allow_mult));
        }
        put_opt_bool(buf, 3, self.last_write_wins);
        proof {
            lemma_concat_assoc(start, acc, opt_varint_piece(3, opt_bool_code(self@.last_write_wins)));
            acc = acc + opt_varint_piece(3, opt_bool_code(self@.last_write_wins));
        }
        put_rep_message(buf, 4, &self.precommit);
        proof {
            assert(messages_bytes(self.precommit@) =~= self@.precommit.map_values(|s: RpbCommitHookView| rpb_commit_hook_bytes(s)));
            lemma_concat_assoc(start, acc, rep_bytes_piece(4, self@.precommit.map_values(|s: RpbCommitHookView| rpb_commit_hook_bytes(s))));
            acc = acc + rep_bytes_piece(4, self@.precommit.map_values(|s: RpbCommitHookView| rpb_commit_hook_bytes(s)));
        }
        put_opt_bool(buf, 5, self.has_precommit);
        proof {
            lemma_concat_assoc(start, acc, opt_varint_piece(5, opt_bool_code(self@.has_precommit)));
            acc = acc + opt_varint_piece(5, opt_bool_code(self@.has_precommit));
        }
        put_rep_message(buf, 6, &self.postcommit);
        proof {
            assert(messages_bytes(self.postcommit@) =~= self@.postcommit.map_values(|s: RpbCommitHookView| rpb_commit_hook_bytes(s)));
            lemma_concat_assoc(start, acc, rep_bytes_piece(6, self@.postcommit.map_values(|s: RpbCommitHookView| rpb_commit_hook_bytes(s))));
            acc = acc + rep_bytes_piece(6, self@.postcommit.map_values(|s: RpbCommitHookView| rpb_commit_hook_bytes(s)));
        }
        put_opt_bool(buf, 7, self.has_postcommit);
        proof {
            lemma_concat_assoc(start, acc, opt_varint_piece(7, opt_bool_code(self@.has_postcommit)));
            acc = acc + opt_varint_piece(7, opt_bool_code(self@.has_postcommit));
        }
        put_opt_message(buf, 8, &self.chash_keyfun);
        proof {
            assert(match self.chash_keyfun { Some(x) => Some(x.wire_bytes()), None => None } == match self@.chash_keyfun { Some(s) => Some(rpb_mod_fun_bytes(s)), None => None });
            lemma_concat_assoc(start, acc, opt_bytes_piece(8, match self@.chash_keyfun { Some(s) => Some(rpb_mod_fun_bytes(s)), None => None }));
            acc = acc + opt_bytes_piece(8, match self@.chash_keyfun { Some(s) => Some(rpb_mod_fun_bytes(s)), None => None });
        }
        put_opt_message(buf, 9, &self.linkfun);
        proof {
            assert(match self.linkfun { Some(x) => Some(x.wire_bytes()), None => None } == match self@.linkfun { Some(s) => Some(rpb_mod_fun_bytes(s)), None => None });
            lemma_concat_assoc(start, acc, opt_bytes_piece(9, match self@.linkfun { Some(s) => Some(rpb_mod_fun_bytes(s)), None => None }));
            acc = acc + opt_bytes_piece(9, match self@.linkfun { Some(s) => Some(rpb_mod_fun_bytes(s)), None => None });
        }
        put_opt_u32(buf, 10, self.old_vclock);
        proof {
            lemma_concat_assoc(start, acc, opt_varint_piece(10, opt_u32_code(self@.old_vclock)));
            acc = acc + opt_varint_piece(10, opt_u32_code(self@.old_vclock));
        }
        put_opt_u32(buf, 11, self.young_vclock);
        proof {
            lemma_concat_assoc(start, acc, opt_varint_piece(11, opt_u32_code(self@.young_vclock)));
            acc = acc + opt_varint_piece(11, opt_u32_code(self@.young_vclock));
        }
        put_opt_u32(buf, 12, self.big_vclock);
        proof {
            lemma_concat_assoc(start, acc, opt_varint_piece(12, opt_u32_code(self@.big_vclock)));
            acc = acc + opt_varint_piece(12, opt_u32_code(self@.big_vclock));
        }
        put_opt_u32(buf, 13, self.small_vclock);
        proof {
            lemma_concat_assoc(start, acc, opt_varint_piece(13, opt_u32_code(self@.small_vclock)));
            acc = acc + opt_varint_piece(13, opt_u32_code(self@.small_vclock));
        }
        put_opt_u32(buf, 14, self.pr);
        proof {
            lemma_concat_assoc(start, acc, opt_varint_piece(14, opt_u32_code(self@.pr)));
            acc = acc + opt_varint_piece(14, opt_u32_code(self@.pr));
        }
        put_opt_u32(buf, 15, self.r);
        proof {
            lemma_concat_assoc(start, acc, opt_varint_piece(15, opt_u32_code(self@.r)));
            acc = acc + opt_varint_piece(15, opt_u32_code(self@.r));
        }
        put_opt_u32(buf, 16, self.w);
        proof {
            lemma_concat_assoc(start, acc, opt_varint_piece(16, opt_u32_code(self@.w)));
            acc = acc + opt_varint_piece(16, opt_u32_code(self@.w));
        }
        put_opt_u32(buf, 17, self.pw);
        proof {
            lemma_concat_assoc(start, acc, opt_varint_piece(17, opt_u32_code(self@.pw)));
            acc = acc + opt_varint_piece(17, opt_u32_code(self@.pw));
        }
        put_opt_u32(buf, 18, self.dw);
        proof {
            lemma_concat_assoc(start, acc, opt_varint_piece(18, opt_u32_code(self@.dw)));
            acc = acc + opt_varint_piece(18, opt_u32_code(self@.dw));
        }
        put_opt_u32(buf, 19, self.rw);
        proof {
            lemma_concat_assoc(start, acc, opt_varint_piece(19, opt_u32_code(self@.rw)));
            acc = acc + opt_varint_piece(19, opt_u32_code(self@.rw));
        }
        put_opt_bool(buf, 20, self.basic_quorum);
        proof {
            lemma_concat_assoc(start, acc, opt_varint_piece(20, opt_bool_code(self@.basic_quorum)));
            acc = acc + opt_varint_piece(20, opt_bool_code(self@.basic_quorum));
        }
        put_opt_bool(buf, 21, self.notfound_ok);
        proof {
            lemma_concat_assoc(start, acc, opt_varint_piece(21, opt_bool_code(self@.notfound_ok)));
            acc = acc + opt_varint_piece(21, opt_bool_code(self@.notfound_ok));
        }
        put_opt_bytes(buf, 22, &self.backend);
        proof {
            lemma_concat_assoc(start, acc, opt_bytes_piece(22, self@.backend));
            acc = acc + opt_bytes_piece(22, self@.backend);
        }
        put_opt_bool(buf, 23, self.search);
        proof {
            lemma_concat_assoc(start, acc, opt_varint_piece(23, opt_bool_code(self@.search)));
            acc = acc + opt_varint_piece(23, opt_bool_code(self@.search));
        }
        put_opt_i32(buf, 24, self.repl);
        proof {
            lemma_concat_assoc(start, acc, opt_varint_piece(24, opt_i32_code(self@.repl)));
            acc = acc + opt_varint_piece(24, opt_i32_code(self@.repl));
        }
        put_opt_bytes(buf, 25, &self.search_index);
        proof {
            lemma_concat_assoc(start, acc, opt_bytes_piece(25, self@.search_index));
            acc = acc + opt_bytes_piece(25, self@.search_index);
        }
        put_opt_bytes(buf, 26, &self.datatype);
        proof {
            lemma_concat_assoc(start, acc, opt_bytes_piece(26, self@.datatype));
            acc = acc + opt_bytes_piece(26, self@.datatype);
        }
        put_opt_bool(buf, 27, self.consistent);
        proof {
            lemma_concat_assoc(start, acc, opt_varint_piece(27, opt_bool_code(self@.consistent)));
            acc = acc + opt_varint_piece(27, opt_bool_code(self@.consistent));
        }
        put_opt_bool(buf, 28, self.write_once);
        proof {
            lemma_concat_assoc(start, acc, opt_varint_piece(28, opt_bool_code(self@.write_once)));
            acc = acc + opt_varint_piece(28, opt_bool_code(self@.write_once));
        }
        put_opt_u32(buf, 29, self.hll_precision);
        proof {
            lemma_concat_assoc(start, acc, opt_varint_piece(29, opt_u32_code(self@.hll_precision)));
            acc = acc + opt_varint_piece(29, opt_u32_code(self@.hll_precision));
        }
        put_opt_u32(buf, 30, self.ttl);
        proof {
            lemma_concat_assoc(start, acc, opt_varint_piece(30, opt_u32_code(self@.ttl)));
            acc = acc + opt_varint_piece(30, opt_u32_code(self@.ttl));
        }
        proof {
            assert(acc == rpb_bucket_props_bytes(self@));
        }
    }
}

/// A request for the properties of a bucket.
#[derive(Clone, Debug)]
pub struct RpbGetBucketReq {
    pub bucket: Vec<u8>,
    pub bucket_type: Option<Vec<u8>>,
}

/// The value of a `RpbGetBucketReq`.
pub struct RpbGetBucketReqView {
    pub bucket: Seq<u8>,
    pub bucket_type: Option<Seq<u8>>,
}

impl View for RpbGetBucketReq {
    type V = RpbGetBucketReqView;

    open spec fn view(&self) -> RpbGetBucketReqView {
        RpbGetBucketReqView {
            bucket: self.bucket@,
            bucket_type: opt_bytes_view(self.bucket_type),
        }
    }
}

/// A `RpbGetBucketReq` with no field set.
pub open spec fn rpb_get_bucket_req_empty() -> RpbGetBucketReqView {
    RpbGetBucketReqView {
        bucket: Seq::empty(),
        bucket_type: None,
    }
}

/// The bytes of a `RpbGetBucketReq`: its fields in the order of their tags.
pub open spec fn rpb_get_bucket_req_bytes(m: RpbGetBucketReqView) -> Seq<u8> {
    bytes_piece(1, m.bucket)
        + opt_bytes_piece(2, m.bucket_type)
}

/// What one field read from the wire does to a `RpbGetBucketReq`: `None` where
/// the field has a known tag and a payload of another wire type, or a
/// nested message that does not read. Fields of unknown tags are skipped.
/// `ctx` is what is left of the nesting allowance of 100 messages: a
/// nested message, or an unknown field, needs some of it.
pub open spec fn rpb_get_bucket_req_apply(m: RpbGetBucketReqView, f: RawField, ctx: nat) -> Option<RpbGetBucketReqView>
    decreases ctx, 0nat,
{
    if f.tag == 1 {
        match f.data {
            RawData::Bytes(b) => Some(RpbGetBucketReqView { bucket: b, ..m }),
            _ => None,
        }
    } else if f.tag == 2 {
        match f.data {
            RawData::Bytes(b) => Some(RpbGetBucketReqView { bucket_type: Some(b), ..m }),
            _ => None,
        }
    } else if ctx == 0 {
        None
    } else {
        Some(m)
    }
}

/// Reads the fields of `s` into `m`, one after the other, as `prost`
/// merges a `RpbGetBucketReq`.
pub open spec fn rpb_get_bucket_req_merge(m: RpbGetBucketReqView, s: Seq<u8>, ctx: nat) -> Option<RpbGetBucketReqView>
    decreases ctx, s.len(),
{
    if s.len() == 0 {
        Some(m)
    } else {
        match field_parse(s, ctx) {
            Some((f, n)) => if 1 <= n <= s.len() {
                match rpb_get_bucket_req_apply(m, f, ctx) {
                    Some(m2) => rpb_get_bucket_req_merge(m2, s.skip(n as int), ctx),
                    None => None,
                }
            } else {
                None
            },
            None => None,
        }
    }
}

/// A `RpbGetBucketReq` read from `s`, or `None` where `s` is malformed: its
/// fields merged into an empty message with the full allowance of 100.
pub open spec fn rpb_get_bucket_req_decode(s: Seq<u8>) -> Option<RpbGetBucketReqView> {
    rpb_get_bucket_req_merge(rpb_get_bucket_req_empty(), s, 100)
}

impl RpbGetBucketReq {
    /// A `RpbGetBucketReq` with no field set.
    pub fn empty() -> (r: RpbGetBucketReq)
        ensures
            r@ == rpb_get_bucket_req_empty(),
    {
        let r = RpbGetBucketReq {
            bucket: Vec::new(),
            bucket_type: None,
        };
        r
    }

    /// The bytes of this message, in a new buffer.
    pub fn encode_to_vec(&self) -> (r: Vec<u8>)
        ensures
            r@ == rpb_get_bucket_req_bytes(self@),
    {
        let mut buf: Vec<u8> = Vec::new();
        self.encode(&mut buf);
        proof {
            assert(buf@ =~= rpb_get_bucket_req_bytes(self@));
        }
        buf
    }

}

impl WireMessage for RpbGetBucketReq {
    open spec fn wire_bytes(&self) -> Seq<u8> {
        rpb_get_bucket_req_bytes(self@)
    }

    fn encode(&self, buf: &mut Vec<u8>) {
        let ghost start = buf@;
        put_bytes_field(buf, 1, self.bucket.as_slice());
        let ghost mut acc = bytes_piece(1, self@.bucket);
        proof {
            assert(buf@ == start + acc);
        }
        put_opt_bytes(buf, 2, &self.bucket_type);
        proof {
            lemma_concat_assoc(start, acc, opt_bytes_piece(2, self@.bucket_type));
            acc = acc + opt_bytes_piece(2, self@.bucket_type);
        }
        proof {
            assert(acc == rpb_get_bucket_req_bytes(self@));
        }
    }
}

/// The properties of a bucket or bucket type, as the server sends them.
#[derive(Clone, Debug)]
pub struct RpbGetBucketResp {
    pub props: RpbBucketProps,
}

/// The value of a `RpbGetBucketResp`.
pub struct RpbGetBucketRespView {
    pub props: RpbBucketPropsView,
}

impl View for RpbGetBucketResp {
    type V = RpbGetBucketRespView;

    open spec fn view(&self) -> RpbGetBucketRespView {
        RpbGetBucketRespView {
            props: self.props@,
        }
    }
}

/// A `RpbGetBucketResp` with no field set.
pub open spec fn rpb_get_bucket_resp_empty() -> RpbGetBucketRespView {
    RpbGetBucketRespView {
        props: rpb_bucket_props_empty(),
    }
}

/// The bytes of a `RpbGetBucketResp`: its fields in the order of their tags.
pub open spec fn rpb_get_bucket_resp_bytes(m: RpbGetBucketRespView) -> Seq<u8> {
    bytes_piece(1, rpb_bucket_props_bytes(m.props))
}

/// What one field read from the wire does to a `RpbGetBucketResp`: `None` where
/// the field has a known tag and a payload of another wire type, or a
/// nested message that does not read. Fields of unknown tags are skipped.
/// `ctx` is what is left of the nesting allowance of 100 messages: a
/// nested message, or an unknown field, needs some of it.
pub open spec fn rpb_get_bucket_resp_apply(m: RpbGetBucketRespView, f: RawField, ctx: nat) -> Option<RpbGetBucketRespView>
    decreases ctx, 0nat,
{
    if f.tag == 1 {
        match f.data {
            RawData::Bytes(b) => if ctx == 0 {
                None
            } else {
                match rpb_bucket_props_merge(m.props, b, (ctx - 1) as nat) {
                    Some(s) => Some(RpbGetBucketRespView { props: s, ..m }),
                    None => None,
                }
            },
            _ => None,
        }
    } else if ctx == 0 {
        None
    } else {
        Some(m)
    }
}

/// Reads the fields of `s` into `m`, one after the other, as `prost`
/// merges a `RpbGetBucketResp`.
pub open spec fn rpb_get_bucket_resp_merge(m: RpbGetBucketRespView, s: Seq<u8>, ctx: nat) -> Option<RpbGetBucketRespView>
    decreases ctx, s.len(),
{
    if s.len() == 0 {
        Some(m)
    } else {
        match field_parse(s, ctx) {
            Some((f, n)) => if 1 <= n <= s.len() {
                match rpb_get_bucket_resp_apply(m, f, ctx) {
                    Some(m2) => rpb_get_bucket_resp_merge(m2, s.skip(n as int), ctx),
                    None => None,
                }
            } else {
                None
            },
            None => None,
        }
    }
}

/// A `RpbGetBucketResp` read from `s`, or `None` where `s` is malformed: its
/// fields merged into an empty message with the full allowance of 100.
pub open spec fn rpb_get_bucket_resp_decode(s: Seq<u8>) -> Option<RpbGetBucketRespView> {
    rpb_get_bucket_resp_merge(rpb_get_bucket_resp_empty(), s, 100)
}

impl RpbGetBucketResp {
    /// A `RpbGetBucketResp` with no field set.
    pub fn empty() -> (r: RpbGetBucketResp)
        ensures
            r@ == rpb_get_bucket_resp_empty(),
    {
        let r = RpbGetBucketResp {
            props: RpbBucketProps::empty(),
        };
        r
    }

    /// Reads the fields of `buf` into this message, as `prost` merges a
    /// `RpbGetBucketResp`.
    pub fn merge_from(&mut self, buf: &[u8], ctx: u32) -> (res: Result<(), DecodeError>)
        ensures
            match res {
                Ok(()) => rpb_get_bucket_resp_merge(old(self)@, buf@, ctx as nat) == Some(final(self)@),
                Err(_) => rpb_get_bucket_resp_merge(old(self)@, buf@, ctx as nat) is None,
            },
        decreases ctx, buf@.len(),
    {
        let mut rest = buf;
        while rest.len() > 0
            invariant
                rpb_get_bucket_resp_merge(old(self)@, buf@, ctx as nat) == rpb_get_bucket_resp_merge(self@, rest@, ctx as nat),
                rest@.len() <= buf@.len(),
            decreases rest@.len(),
        {
            let (f, r2) = match read_field(rest, ctx) {
                Ok(p) => p,
                Err(e) => return Err(e),
            };
            proof {
                lemma_field_parse_len(rest@, ctx as nat);
            }
            match self.apply_field(f, ctx) {
                Ok(()) => {},
                Err(e) => return Err(e),
            }
            rest = r2;
        }
        Ok(())
    }

    /// Reads a `RpbGetBucketResp` from `buf`, with the full allowance of 100.
    pub fn decode(buf: &[u8]) -> (res: Result<RpbGetBucketResp, DecodeError>)
        ensures
            match res {
                Ok(m) => rpb_get_bucket_resp_decode(buf@) == Some(m@),
                Err(_) => rpb_get_bucket_resp_decode(buf@) is None,
            },
    {
        let mut m = RpbGetBucketResp::empty();
        match m.merge_from(buf, 100) {
            Ok(()) => Ok(m),
            Err(e) => Err(e),
        }
    }

    fn apply_field(&mut self, f: Field, ctx: u32) -> (res: Result<(), DecodeError>)
        ensures
            match res {
                Ok(()) => rpb_get_bucket_resp_apply(old(self)@, f@, ctx as nat) == Some(final(self)@),
                Err(_) => rpb_get_bucket_resp_apply(old(self)@, f@, ctx as nat) is None,
            },
        decreases ctx, 0nat,
    {
        let Field { tag, data } = f;
        if tag == 1 {
            match data {
                FieldData::Bytes(b) => {
                    if ctx == 0 {
                        return Err(decode_error("recursion limit reached"));
                    }
                    self.props.merge_from(b.as_slice(), ctx - 1)
                },
                _ => Err(decode_error("invalid wire type")),
            }
        } else if ctx == 0 {
            Err(decode_error("recursion limit reached"))
        } else {
            Ok(())
        }
    }

}

/// A request to set the properties of a bucket.
#[derive(Clone, Debug)]
pub struct RpbSetBucketReq {
    pub bucket: Vec<u8>,
    pub props: RpbBucketProps,
    pub bucket_type: Option<Vec<u8>>,
}

/// The value of a `RpbSetBucketReq`.
pub struct RpbSetBucketReqView {
    pub bucket: Seq<u8>,
    pub props: RpbBucketPropsView,
    pub bucket_type: Option<Seq<u8>>,
}

impl View for RpbSetBucketReq {
    type V = RpbSetBucketReqView;

    open spec fn view(&self) -> RpbSetBucketReqView {
        RpbSetBucketReqView {
            bucket: self.bucket@,
            props: self.props@,
            bucket_type: opt_bytes_view(self.bucket_type),
        }
    }
}

/// A `RpbSetBucketReq` with no field set.
pub open spec fn rpb_set_bucket_req_empty() -> RpbSetBucketReqView {
    RpbSetBucketReqView {
        bucket: Seq::empty(),
        props: rpb_bucket_props_empty(),
        bucket_type: None,
    }
}

/// The bytes of a `RpbSetBucketReq`: its fields in the order of their tags.
pub open spec fn rpb_set_bucket_req_bytes(m: RpbSetBucketReqView) -> Seq<u8> {
    bytes_piece(1, m.bucket)
        + bytes_piece(2, rpb_bucket_props_bytes(m.props))
        + opt_bytes_piece(3, m.bucket_type)
}

/// What one field read from the wire does to a `RpbSetBucketReq`: `None` where
/// the field has a known tag and a payload of another wire type, or a
/// nested message that does not read. Fields of unknown tags are skipped.
/// `ctx` is what is left of the nesting allowance of 100 messages: a
/// nested message, or an unknown field, needs some of it.
pub open spec fn rpb_set_bucket_req_apply(m: RpbSetBucketReqView, f: RawField, ctx: nat) -> Option<RpbSetBucketReqView>
    decreases ctx, 0nat,
{
    if f.tag == 1 {
        match f.data {
            RawData::Bytes(b) => Some(RpbSetBucketReqView { bucket: b, ..m }),
            _ => None,
        }
    } else if f.tag == 2 {
        match f.data {
            RawData::Bytes(b) => if ctx == 0 {
                None
            } else {
                match rpb_bucket_props_merge(m.props, b, (ctx - 1) as nat) {
                    Some(s) => Some(RpbSetBucketReqView { props: s, ..m }),
                    None => None,
                }
            },
            _ => None,
        }
    } else if f.tag == 3 {
        match f.data {
            RawData::Bytes(b) => Some(RpbSetBucketReqView { bucket_type: Some(b), ..m }),
            _ => None,
        }
    } else if ctx == 0 {
        None
    } else {
        Some(m)
    }
}

/// Reads the fields of `s` into `m`, one after the other, as `prost`
/// merges a `RpbSetBucketReq`.
pub open spec fn rpb_set_bucket_req_merge(m: RpbSetBucketReqView, s: Seq<u8>, ctx: nat) -> Option<RpbSetBucketReqView>
    decreases ctx, s.len(),
{
    if s.len() == 0 {
        Some(m)
    } else {
        match field_parse(s, ctx) {
            Some((f, n)) => if 1 <= n <= s.len() {
                match rpb_set_bucket_req_apply(m, f, ctx) {
                    Some(m2) => rpb_set_bucket_req_merge(m2, s.skip(n as int), ctx),
                    None => None,
                }
            } else {
                None
            },
            None => None,
        }
    }
}

/// A `RpbSetBucketReq` read from `s`, or `None` where `s` is malformed: its
/// fields merged into an empty message with the full allowance of 100.
pub open spec fn rpb_set_bucket_req_decode(s: Seq<u8>) -> Option<RpbSetBucketReqView> {
    rpb_set_bucket_req_merge(rpb_set_bucket_req_empty(), s, 100)
}

impl RpbSetBucketReq {
    /// A `RpbSetBucketReq` with no field set.
    pub fn empty() -> (r: RpbSetBucketReq)
        ensures
            r@ == rpb_set_bucket_req_empty(),
    {
        let r = RpbSetBucketReq {
            bucket: Vec::new(),
            props: RpbBucketProps::empty(),
            bucket_type: None,
        };
        r
    }

    /// The bytes of this message, in a new buffer.
    pub fn encode_to_vec(&self) -> (r: Vec<u8>)
        ensures
            r@ == rpb_set_bucket_req_bytes(self@),
    {
        let mut buf: Vec<u8> = Vec::new();
        self.encode(&mut buf);
        proof {
            assert(buf@ =~= rpb_set_bucket_req_bytes(self@));
        }
        buf
    }

}

impl WireMessage for RpbSetBucketReq {
    open spec fn wire_bytes(&self) -> Seq<u8> {
        rpb_set_bucket_req_bytes(self@)
    }

    fn encode(&self, buf: &mut Vec<u8>) {
        let ghost start = buf@;
        put_bytes_field(buf, 1, self.bucket.as_slice());
        let ghost mut acc = bytes_piece(1, self@.bucket);
        proof {
            assert(buf@ == start + acc);
        }
        put_message(buf, 2, &self.props);
        proof {
            lemma_concat_assoc(start, acc, bytes_piece(2, rpb_bucket_props_bytes(self@.props)));
            acc = acc + bytes_piece(2, rpb_bucket_props_bytes(self@.props));
        }
        put_opt_bytes(buf, 3, &self.bucket_type);
        proof {
            lemma_concat_assoc(start, acc, opt_bytes_piece(3, self@.bucket_type));
            acc = acc + opt_bytes_piece(3, self@.bucket_type);
        }
        proof {
            assert(acc == rpb_set_bucket_req_bytes(self@));
        }
    }
}

/// A request to reset the properties of a bucket.
#[derive(Clone, Debug)]
pub struct RpbResetBucketReq {
    pub bucket: Vec<u8>,
    pub bucket_type: Option<Vec<u8>>,
}

/// The value of a `RpbResetBucketReq`.
pub struct RpbResetBucketReqView {
    pub bucket: Seq<u8>,
    pub bucket_type: Option<Seq<u8>>,
}

impl View for RpbResetBucketReq {
    type V = RpbResetBucketReqView;

    open spec fn view(&self) -> RpbResetBucketReqView {
        RpbResetBucketReqView {
            bucket: self.bucket@,
            bucket_type: opt_bytes_view(self.bucket_type),
        }
    }
}

/// A `RpbResetBucketReq` with no field set.
pub open spec fn rpb_reset_bucket_req_empty() -> RpbResetBucketReqView {
    RpbResetBucketReqView {
        bucket: Seq::empty(),
        bucket_type: None,
    }
}

/// The bytes of a `RpbResetBucketReq`: its fields in the order of their tags.
pub open spec fn rpb_reset_bucket_req_bytes(m: RpbResetBucketReqView) -> Seq<u8> {
    bytes_piece(1, m.bucket)
        + opt_bytes_piece(2, m.bucket_type)
}

/// What one field read from the wire does to a `RpbResetBucketReq`: `None` where
/// the field has a known tag and a payload of another wire type, or a
/// nested message that does not read. Fields of unknown tags are skipped.
/// `ctx` is what is left of the nesting allowance of 100 messages: a
/// nested message, or an unknown field, needs some of it.
pub open spec fn rpb_reset_bucket_req_apply(m: RpbResetBucketReqView, f: RawField, ctx: nat) -> Option<RpbResetBucketReqView>
    decreases ctx, 0nat,
{
    if f.tag == 1 {
        match f.data {
            RawData::Bytes(b) => Some(RpbResetBucketReqView { bucket: b, ..m }),
            _ => None,
        }
    } else if f.tag == 2 {
        match f.data {
            RawData::Bytes(b) => Some(RpbResetBucketReqView { bucket_type: Some(b), ..m }),
            _ => None,
        }
    } else if ctx == 0 {
        None
    } else {
        Some(m)
    }
}

/// Reads the fields of `s` into `m`, one after the other, as `prost`
/// merges a `RpbResetBucketReq`.
pub open spec fn rpb_reset_bucket_req_merge(m: RpbResetBucketReqView, s: Seq<u8>, ctx: nat) -> Option<RpbResetBucketReqView>
    decreases ctx, s.len(),
{
    if s.len() == 0 {
        Some(m)
    } else {
        match field_parse(s, ctx) {
            Some((f, n)) => if 1 <= n <= s.len() {
                match rpb_reset_bucket_req_apply(m, f, ctx) {
                    Some(m2) => rpb_reset_bucket_req_merge(m2, s.skip(n as int), ctx),
                    None => None,
                }
            } else {
                None
            },
            None => None,
        }
    }
}

/// A `RpbResetBucketReq` read from `s`, or `None` where `s` is malformed: its
/// fields merged into an empty message with the full allowance of 100.
pub open spec fn rpb_reset_bucket_req_decode(s: Seq<u8>) -> Option<RpbResetBucketReqView> {
    rpb_reset_bucket_req_merge(rpb_reset_bucket_req_empty(), s, 100)
}

impl RpbResetBucketReq {
    /// A `RpbResetBucketReq` with no field set.
    pub fn empty() -> (r: RpbResetBucketReq)
        ensures
            r@ == rpb_reset_bucket_req_empty(),
    {
        let r = RpbResetBucketReq {
            bucket: Vec::new(),
            bucket_type: None,
        };
        r
    }

    /// The bytes of this message, in a new buffer.
    pub fn encode_to_vec(&self) -> (r: Vec<u8>)
        ensures
            r@ == rpb_reset_bucket_req_bytes(self@),
    {
        let mut buf: Vec<u8> = Vec::new();
        self.encode(&mut buf);
        proof {
            assert(buf@ =~= rpb_reset_bucket_req_bytes(self@));
        }
        buf
    }

}

impl WireMessage for RpbResetBucketReq {
    open spec fn wire_bytes(&self) -> Seq<u8> {
        rpb_reset_bucket_req_bytes(self@)
    }

    fn encode(&self, buf: &mut Vec<u8>) {
        let ghost start = buf@;
        put_bytes_field(buf, 1, self.bucket.as_slice());
        let ghost mut acc = bytes_piece(1, self@.bucket);
        proof {
            assert(buf@ == start + acc);
        }
        put_opt_bytes(buf, 2, &self.bucket_type);
        proof {
            lemma_concat_assoc(start, acc, opt_bytes_piece(2, self@.bucket_type));
            acc = acc + opt_bytes_piece(2, self@.bucket_type);
        }
        proof {
            assert(acc == rpb_reset_bucket_req_bytes(self@));
        }
    }
}

/// A request for the properties of a bucket type.
#[derive(Clone, Debug)]
pub struct RpbGetBucketTypeReq {
    pub bucket_type: Vec<u8>,
}

/// The value of a `RpbGetBucketTypeReq`.
pub struct RpbGetBucketTypeReqView {
    pub bucket_type: Seq<u8>,
}

impl View for RpbGetBucketTypeReq {
    type V = RpbGetBucketTypeReqView;

    open spec fn view(&self) -> RpbGetBucketTypeReqView {
        RpbGetBucketTypeReqView {
            bucket_type: self.bucket_type@,
        }
    }
}

/// A `RpbGetBucketTypeReq` with no field set.
pub open spec fn rpb_get_bucket_type_req_empty() -> RpbGetBucketTypeReqView {
    RpbGetBucketTypeReqView {
        bucket_type: Seq::empty(),
    }
}

/// The bytes of a `RpbGetBucketTypeReq`: its fields in the order of their tags.
pub open spec fn rpb_get_bucket_type_req_bytes(m: RpbGetBucketTypeReqView) -> Seq<u8> {
    bytes_piece(1, m.bucket_type)
}

/// What one field read from the wire does to a `RpbGetBucketTypeReq`: `None` where
/// the field has a known tag and a payload of another wire type, or a
/// nested message that does not read. Fields of unknown tags are skipped.
/// `ctx` is what is left of the nesting allowance of 100 messages: a
/// nested message, or an unknown field, needs some of it.
pub open spec fn rpb_get_bucket_type_req_apply(m: RpbGetBucketTypeReqView, f: RawField, ctx: nat) -> Option<RpbGetBucketTypeReqView>
    decreases ctx, 0nat,
{
    if f.tag == 1 {
        match f.data {
            RawData::Bytes(b) => Some(RpbGetBucketTypeReqView { bucket_type: b, ..m }),
            _ => None,
        }
    } else if ctx == 0 {
        None
    } else {
        Some(m)
    }
}

/// Reads the fields of `s` into `m`, one after the other, as `prost`
/// merges a `RpbGetBucketTypeReq`.
pub open spec fn rpb_get_bucket_type_req_merge(m: RpbGetBucketTypeReqView, s: Seq<u8>, ctx: nat) -> Option<RpbGetBucketTypeReqView>
    decreases ctx, s.len(),
{
    if s.len() == 0 {
        Some(m)
    } else {
        match field_parse(s, ctx) {
            Some((f, n)) => if 1 <= n <= s.len() {
                match rpb_get_bucket_type_req_apply(m, f, ctx) {
                    Some(m2) => rpb_get_bucket_type_req_merge(m2, s.skip(n as int), ctx),
                    None => None,
                }
            } else {
                None
            },
            None => None,
        }
    }
}

/// A `RpbGetBucketTypeReq` read from `s`, or `None` where `s` is malformed: its
/// fields merged into an empty message with the full allowance of 100.
pub open spec fn rpb_get_bucket_type_req_decode(s: Seq<u8>) -> Option<RpbGetBucketTypeReqView> {
    rpb_get_bucket_type_req_merge(rpb_get_bucket_type_req_empty(), s, 100)
}

impl RpbGetBucketTypeReq {
    /// A `RpbGetBucketTypeReq` with no field set.
    pub fn empty() -> (r: RpbGetBucketTypeReq)
        ensures
            r@ == rpb_get_bucket_type_req_empty(),
    {
        let r = RpbGetBucketTypeReq {
            bucket_type: Vec::new(),
        };
        r
    }

    /// The bytes of this message, in a new buffer.
    pub fn encode_to_vec(&self) -> (r: Vec<u8>)
        ensures
            r@ == rpb_get_bucket_type_req_bytes(self@),
    {
        let mut buf: Vec<u8> = Vec::new();
        self.encode(&mut buf);
        proof {
            assert(buf@ =~= rpb_get_bucket_type_req_bytes(self@));
        }
        buf
    }

}

impl WireMessage for RpbGetBucketTypeReq {
    open spec fn wire_bytes(&self) -> Seq<u8> {
        rpb_get_bucket_type_req_bytes(self@)
    }

    fn encode(&self, buf: &mut Vec<u8>) {
        let ghost start = buf@;
        put_bytes_field(buf, 1, self.bucket_type.as_slice());
        let ghost mut acc = bytes_piece(1, self@.bucket_type);
        proof {
            assert(buf@ == start + acc);
        }
        proof {
            assert(acc == rpb_get_bucket_type_req_bytes(self@));
        }
    }
}

/// A request to set the properties of a bucket type.
#[derive(Clone, Debug)]
pub struct RpbSetBucketTypeReq {
    pub bucket_type: Vec<u8>,
    pub props: RpbBucketProps,
}

/// The value of a `RpbSetBucketTypeReq`.
pub struct RpbSetBucketTypeReqView {
    pub bucket_type: Seq<u8>,
    pub props: RpbBucketPropsView,
}

impl View for RpbSetBucketTypeReq {
    type V = RpbSetBucketTypeReqView;

    open spec fn view(&self) -> RpbSetBucketTypeReqView {
        RpbSetBucketTypeReqView {
            bucket_type: self.bucket_type@,
            props: self.props@,
        }
    }
}

/// A `RpbSetBucketTypeReq` with no field set.
pub open spec fn rpb_set_bucket_type_req_empty() -> RpbSetBucketTypeReqView {
    RpbSetBucketTypeReqView {
        bucket_type: Seq::empty(),
        props: rpb_bucket_props_empty(),
    }
}

/// The bytes of a `RpbSetBucketTypeReq`: its fields in the order of their tags.
pub open spec fn rpb_set_bucket_type_req_bytes(m: RpbSetBucketTypeReqView) -> Seq<u8> {
    bytes_piece(1, m.bucket_type)
        + bytes_piece(2, rpb_bucket_props_bytes(m.props))
}

/// What one field read from the wire does to a `RpbSetBucketTypeReq`: `None` where
/// the field has a known tag and a payload of another wire type, or a
/// nested message that does not read. Fields of unknown tags are skipped.
/// `ctx` is what is left of the nesting allowance of 100 messages: a
/// nested message, or an unknown field, needs some of it.
pub open spec fn rpb_set_bucket_type_req_apply(m: RpbSetBucketTypeReqView, f: RawField, ctx: nat) -> Option<RpbSetBucketTypeReqView>
    decreases ctx, 0nat,
{
    if f.tag == 1 {
        match f.data {
            RawData::Bytes(b) => Some(RpbSetBucketTypeReqView { bucket_type: b, ..m }),
            _ => None,
        }
    } else if f.tag == 2 {
        match f.data {
            RawData::Bytes(b) => if ctx == 0 {
                None
            } else {
                match rpb_bucket_props_merge(m.props, b, (ctx - 1) as nat) {
                    Some(s) => Some(RpbSetBucketTypeReqView { props: s, ..m }),
                    None => None,
                }
            },
            _ => None,
        }
    } else if ctx == 0 {
        None
    } else {
        Some(m)
    }
}

/// Reads the fields of `s` into `m`, one after the other, as `prost`
/// merges a `RpbSetBucketTypeReq`.
pub open spec fn rpb_set_bucket_type_req_merge(m: RpbSetBucketTypeReqView, s: Seq<u8>, ctx: nat) -> Option<RpbSetBucketTypeReqView>
    decreases ctx, s.len(),
{
    if s.len() == 0 {
        Some(m)
    } else {
        match field_parse(s, ctx) {
            Some((f, n)) => if 1 <= n <= s.len() {
                match rpb_set_bucket_type_req_apply(m, f, ctx) {
                    Some(m2) => rpb_set_bucket_type_req_merge(m2, s.skip(n as int), ctx),
                    None => None,
                }
            } else {
                None
            },
            None => None,
        }
    }
}

/// A `RpbSetBucketTypeReq` read from `s`, or `None` where `s` is malformed: its
/// fields merged into an empty message with the full allowance of 100.
pub open spec fn rpb_set_bucket_type_req_decode(s: Seq<u8>) -> Option<RpbSetBucketTypeReqView> {
    rpb_set_bucket_type_req_merge(rpb_set_bucket_type_req_empty(), s, 100)
}

impl RpbSetBucketTypeReq {
    /// A `RpbSetBucketTypeReq` with no field set.
    pub fn empty() -> (r: RpbSetBucketTypeReq)
        ensures
            r@ == rpb_set_bucket_type_req_empty(),
    {
        let r = RpbSetBucketTypeReq {
            bucket_type: Vec::new(),
            props: RpbBucketProps::empty(),
        };
        r
    }

    /// The bytes of this message, in a new buffer.
    pub fn encode_to_vec(&self) -> (r: Vec<u8>)
        ensures
            r@ == rpb_set_bucket_type_req_bytes(self@),
    {
        let mut buf: Vec<u8> = Vec::new();
        self.encode(&mut buf);
        proof {
            assert(buf@ =~= rpb_set_bucket_type_req_bytes(self@));
        }
        buf
    }

}

impl WireMessage for RpbSetBucketTypeReq {
    open spec fn wire_bytes(&self) -> Seq<u8> {
        rpb_set_bucket_type_req_bytes(self@)
    }

    fn encode(&self, buf: &mut Vec<u8>) {
        let ghost start = buf@;
        put_bytes_field(buf, 1, self.bucket_type.as_slice());
        let ghost mut acc = bytes_piece(1, self@.bucket_type);
        proof {
            assert(buf@ == start + acc);
        }
        put_message(buf, 2, &self.props);
        proof {
            lemma_concat_assoc(start, acc, bytes_piece(2, rpb_bucket_props_bytes(self@.props)));
            acc = acc + bytes_piece(2, rpb_bucket_props_bytes(self@.props));
        }
        proof {
            assert(acc == rpb_set_bucket_type_req_bytes(self@));
        }
    }
}

/// A link from an object to another.
#[derive(Clone, Debug)]
pub struct RpbLink {
    pub bucket: Option<Vec<u8>>,
    pub key: Option<Vec<u8>>,
    pub tag: Option<Vec<u8>>,
}

/// The value of a `RpbLink`.
pub struct RpbLinkView {
    pub bucket: Option<Seq<u8>>,
    pub key: Option<Seq<u8>>,
    pub tag: Option<Seq<u8>>,
}

impl View for RpbLink {
    type V = RpbLinkView;

    open spec fn view(&self) -> RpbLinkView {
        RpbLinkView {
            bucket: opt_bytes_view(self.bucket),
            key: opt_bytes_view(self.key),
            tag: opt_bytes_view(self.tag),
        }
    }
}

/// A `RpbLink` with no field set.
pub open spec fn rpb_link_empty() -> RpbLinkView {
    RpbLinkView {
        bucket: None,
        key: None,
        tag: None,
    }
}

/// The bytes of a `RpbLink`: its fields in the order of their tags.
pub open spec fn rpb_link_bytes(m: RpbLinkView) -> Seq<u8> {
    opt_bytes_piece(1, m.bucket)
        + opt_bytes_piece(2, m.key)
        + opt_bytes_piece(3, m.tag)
}

/// What one field read from the wire does to a `RpbLink`: `None` where
/// the field has a known tag and a payload of another wire type, or a
/// nested message that does not read. Fields of unknown tags are skipped.
/// `ctx` is what is left of the nesting allowance of 100 messages: a
/// nested message, or an unknown field, needs some of it.
pub open spec fn rpb_link_apply(m: RpbLinkView, f: RawField, ctx: nat) -> Option<RpbLinkView>
    decreases ctx, 0nat,
{
    if f.tag == 1 {
        match f.data {
            RawData::Bytes(b) => Some(RpbLinkView { bucket: Some(b), ..m }),
            _ => None,
        }
    } else if f.tag == 2 {
        match f.data {
            RawData::Bytes(b) => Some(RpbLinkView { key: Some(b), ..m }),
            _ => None,
        }
    } else if f.tag == 3 {
        match f.data {
            RawData::Bytes(b) => Some(RpbLinkView { tag: Some(b), ..m }),
            _ => None,
        }
    } else if ctx == 0 {
        None
    } else {
        Some(m)
    }
}

/// Reads the fields of `s` into `m`, one after the other, as `prost`
/// merges a `RpbLink`.
pub open spec fn rpb_link_merge(m: RpbLinkView, s: Seq<u8>, ctx: nat) -> Option<RpbLinkView>
    decreases ctx, s.len(),
{
    if s.len() == 0 {
        Some(m)
    } else {
        match field_parse(s, ctx) {
            Some((f, n)) => if 1 <= n <= s.len() {
                match rpb_link_apply(m, f, ctx) {
                    Some(m2) => rpb_link_merge(m2, s.skip(n as int), ctx),
                    None => None,
                }
            } else {
                None
            },
            None => None,
        }
    }
}

/// A `RpbLink` read from `s`, or `None` where `s` is malformed: its
/// fields merged into an empty message with the full allowance of 100.
pub open spec fn rpb_link_decode(s: Seq<u8>) -> Option<RpbLinkView> {
    rpb_link_merge(rpb_link_empty(), s, 100)
}

impl RpbLink {
    /// A `RpbLink` with no field set.
    pub fn empty() -> (r: RpbLink)
        ensures
            r@ == rpb_link_empty(),
    {
        let r = RpbLink {
            bucket: None,
            key: None,
            tag: None,
        };
        r
    }

    /// The bytes of this message, in a new buffer.
    pub fn encode_to_vec(&self) -> (r: Vec<u8>)
        ensures
            r@ == rpb_link_bytes(self@),
    {
        let mut buf: Vec<u8> = Vec::new();
        self.encode(&mut buf);
        proof {
            assert(buf@ =~= rpb_link_bytes(self@));
        }
        buf
    }

    /// Reads the fields of `buf` into this message, as `prost` merges a
    /// `RpbLink`.
    pub fn merge_from(&mut self, buf: &[u8], ctx: u32) -> (res: Result<(), DecodeError>)
        ensures
            match res {
                Ok(()) => rpb_link_merge(old(self)@, buf@, ctx as nat) == Some(final(self)@),
                Err(_) => rpb_link_merge(old(self)@, buf@, ctx as nat) is None,
            },
        decreases ctx, buf@.len(),
    {
        let mut rest = buf;
        while rest.len() > 0
            invariant
                rpb_link_merge(old(self)@, buf@, ctx as nat) == rpb_link_merge(self@, rest@, ctx as nat),
                rest@.len() <= buf@.len(),
            decreases rest@.len(),
        {
            let (f, r2) = match read_field(rest, ctx) {
                Ok(p) => p,
                Err(e) => return Err(e),
            };
            proof {
                lemma_field_parse_len(rest@, ctx as nat);
            }
            match self.apply_field(f, ctx) {
                Ok(()) => {},
                Err(e) => return Err(e),
            }
            rest = r2;
        }
        Ok(())
    }

    /// Reads a `RpbLink` from `buf`, with the full allowance of 100.
    pub fn decode(buf: &[u8]) -> (res: Result<RpbLink, DecodeError>)
        ensures
            match res {
                Ok(m) => rpb_link_decode(buf@) == Some(m@),
                Err(_) => rpb_link_decode(buf@) is None,
            },
    {
        let mut m = RpbLink::empty();
        match m.merge_from(buf, 100) {
            Ok(()) => Ok(m),
            Err(e) => Err(e),
        }
    }

    fn apply_field(&mut self, f: Field, ctx: u32) -> (res: Result<(), DecodeError>)
        ensures
            match res {
                Ok(()) => rpb_link_apply(old(self)@, f@, ctx as nat) == Some(final(self)@),
                Err(_) => rpb_link_apply(old(self)@, f@, ctx as nat) is None,
            },
        decreases ctx, 0nat,
    {
        let Field { tag, data } = f;
        if tag == 1 {
            match data {
                FieldData::Bytes(b) => {
                    self.bucket = Some(b);
                    Ok(())
                },
                _ => Err(decode_error("invalid wire type")),
            }
        } else if tag == 2 {
            match data {
                FieldData::Bytes(b) => {
                    self.key = Some(b);
                    Ok(())
                },
                _ => Err(decode_error("invalid wire type")),
            }
        } else if tag == 3 {
            match data {
                FieldData::Bytes(b) => {
                    self.tag = Some(b);
                    Ok(())
                },
                _ => Err(decode_error("invalid wire type")),
            }
        } else if ctx == 0 {
            Err(decode_error("recursion limit reached"))
        } else {
            Ok(())
        }
    }

}

impl WireMessage for RpbLink {
    open spec fn wire_bytes(&self) -> Seq<u8> {
        rpb_link_bytes(self@)
    }

    fn encode(&self, buf: &mut Vec<u8>) {
        let ghost start = buf@;
        put_opt_bytes(buf, 1, &self.bucket);
        let ghost mut acc = opt_bytes_piece(1, self@.bucket);
        proof {
            assert(buf@ == start + acc);
        }
        put_opt_bytes(buf, 2, &self.key);
        proof {
            lemma_concat_assoc(start, acc, opt_bytes_piece(2, self@.key));
            acc = acc + opt_bytes_piece(2, self@.key);
        }
        put_opt_bytes(buf, 3, &self.tag);
        proof {
            lemma_concat_assoc(start, acc, opt_bytes_piece(3, self@.tag));
            acc = acc + opt_bytes_piece(3, self@.tag);
        }
        proof {
            assert(acc == rpb_link_bytes(self@));
        }
    }
}

/// The content of an object: its value and metadata.
#[derive(Clone, Debug)]
pub struct RpbContent {
    pub value: Vec<u8>,
    pub content_type: Option<Vec<u8>>,
    pub charset: Option<Vec<u8>>,
    pub content_encoding: Option<Vec<u8>>,
    pub vtag: Option<Vec<u8>>,
    pub links: Vec<RpbLink>,
    pub last_mod: Option<u32>,
    pub last_mod_usecs: Option<u32>,
    pub usermeta: Vec<RpbPair>,
    pub indexes: Vec<RpbPair>,
    pub deleted: Option<bool>,
    pub ttl: Option<u32>,
}

/// The value of a `RpbContent`.
pub struct RpbContentView {
    pub value: Seq<u8>,
    pub content_type: Option<Seq<u8>>,
    pub charset: Option<Seq<u8>>,
    pub content_encoding: Option<Seq<u8>>,
    pub vtag: Option<Seq<u8>>,
    pub links: Seq<RpbLinkView>,
    pub last_mod: Option<u32>,
    pub last_mod_usecs: Option<u32>,
    pub usermeta: Seq<RpbPairView>,
    pub indexes: Seq<RpbPairView>,
    pub deleted: Option<bool>,
    pub ttl: Option<u32>,
}

impl View for RpbContent {
    type V = RpbContentView;

    open spec fn view(&self) -> RpbContentView {
        RpbContentView {
            value: self.value@,
            content_type: opt_bytes_view(self.content_type),
            charset: opt_bytes_view(self.charset),
            content_encoding: opt_bytes_view(self.content_encoding),
            vtag: opt_bytes_view(self.vtag),
            links: self.links@.map_values(|m: RpbLink| m@),
            last_mod: self.last_mod,
            last_mod_usecs: self.last_mod_usecs,
            usermeta: self.usermeta@.map_values(|m: RpbPair| m@),
            indexes: self.indexes@.map_values(|m: RpbPair| m@),
            deleted: self.deleted,
            ttl: self.ttl,
        }
    }
}

/// A `RpbContent` with no field set.
pub open spec fn rpb_content_empty() -> RpbContentView {
    RpbContentView {
        value: Seq::empty(),
        content_type: None,
        charset: None,
        content_encoding: None,
        vtag: None,
        links: Seq::empty(),
        last_mod: None,
        last_mod_usecs: None,
        usermeta: Seq::empty(),
        indexes: Seq::empty(),
        deleted: None,
        ttl: None,
    }
}

/// The bytes of a `RpbContent`: its fields in the order of their tags.
pub open spec fn rpb_content_bytes(m: RpbContentView) -> Seq<u8> {
    bytes_piece(1, m.value)
        + opt_bytes_piece(2, m.content_type)
        + opt_bytes_piece(3, m.charset)
        + opt_bytes_piece(4, m.content_encoding)
        + opt_bytes_piece(5, m.vtag)
        + rep_bytes_piece(6, m.links.map_values(|s: RpbLinkView| rpb_link_bytes(s)))
        + opt_varint_piece(7, opt_u32_code(m.last_mod))
        + opt_varint_piece(8, opt_u32_code(m.last_mod_usecs))
        + rep_bytes_piece(9, m.usermeta.map_values(|s: RpbPairView| rpb_pair_bytes(s)))
        + rep_bytes_piece(10, m.indexes.map_values(|s: RpbPairView| rpb_pair_bytes(s)))
        + opt_varint_piece(11, opt_bool_code(m.deleted))
        + opt_varint_piece(12, opt_u32_code(m.ttl))
}

/// What one field read from the wire does to a `RpbContent`: `None` where
/// the field has a known tag and a payload of another wire type, or a
/// nested message that does not read. Fields of unknown tags are skipped.
/// `ctx` is what is left of the nesting allowance of 100 messages: a
/// nested message, or an unknown field, needs some of it.
pub open spec fn rpb_content_apply(m: RpbContentView, f: RawField, ctx: nat) -> Option<RpbContentView>
    decreases ctx, 0nat,
{
    if f.tag == 1 {
        match f.data {
            RawData::Bytes(b) => Some(RpbContentView { value: b, ..m }),
            _ => None,
        }
    } else if f.tag == 2 {
        match f.data {
            RawData::Bytes(b) => Some(RpbContentView { content_type: Some(b), ..m }),
            _ => None,
        }
    } else if f.tag == 3 {
        match f.data {
            RawData::Bytes(b) => Some(RpbContentView { charset: Some(b), ..m }),
            _ => None,
        }
    } else if f.tag == 4 {
        match f.data {
            RawData::Bytes(b) => Some(RpbContentView { content_encoding: Some(b), ..m }),
            _ => None,
        }
    } else if f.tag == 5 {
        match f.data {
            RawData::Bytes(b) => Some(RpbContentView { vtag: Some(b), ..m }),
            _ => None,
        }
    } else if f.tag == 6 {
        match f.data {
            RawData::Bytes(b) => if ctx == 0 {
                None
            } else {
                match rpb_link_merge(rpb_link_empty(), b, (ctx - 1) as nat) {
                    Some(s) => Some(RpbContentView { links: m.links.push(s), ..m }),
                    None => None,
                }
            },
            _ => None,
        }
    } else if f.tag == 7 {
        match f.data {
            RawData::Varint(v) => Some(RpbContentView { last_mod: Some(u32_of_code(v)), ..m }),
            _ => None,
        }
    } else if f.tag == 8 {
        match f.data {
            RawData::Varint(v) => Some(RpbContentView { last_mod_usecs: Some(u32_of_code(v)), ..m }),
            _ => None,
        }
    } else if f.tag == 9 {
        match f.data {
            RawData::Bytes(b) => if ctx == 0 {
                None
            } else {
                match rpb_pair_merge(rpb_pair_empty(), b, (ctx - 1) as nat) {
                    Some(s) => Some(RpbContentView { usermeta: m.usermeta.push(s), ..m }),
                    None => None,
                }
            },
            _ => None,
        }
    } else if f.tag == 10 {
        match f.data {
            RawData::Bytes(b) => if ctx == 0 {
                None
            } else {
                match rpb_pair_merge(rpb_pair_empty(), b, (ctx - 1) as nat) {
                    Some(s) => Some(RpbContentView { indexes: m.indexes.push(s), ..m }),
                    None => None,
                }
            },
            _ => None,
        }
    } else if f.tag == 11 {
        match f.data {
            RawData::Varint(v) => Some(RpbContentView { deleted: Some(v != 0), ..m }),
            _ => None,
        }
    } else if f.tag == 12 {
        match f.data {
            RawData::Varint(v) => Some(RpbContentView { ttl: Some(u32_of_code(v)), ..m }),
            _ => None,
        }
    } else if ctx == 0 {
        None
    } else {
        Some(m)
    }
}

/// Reads the fields of `s` into `m`, one after the other, as `prost`
/// merges a `RpbContent`.
pub open spec fn rpb_content_merge(m: RpbContentView, s: Seq<u8>, ctx: nat) -> Option<RpbContentView>
    decreases ctx, s.len(),
{
    if s.len() == 0 {
        Some(m)
    } else {
        match field_parse(s, ctx) {
            Some((f, n)) => if 1 <= n <= s.len() {
                match rpb_content_apply(m, f, ctx) {
                    Some(m2) => rpb_content_merge(m2, s.skip(n as int), ctx),
                    None => None,
                }
            } else {
                None
            },
            None => None,
        }
    }
}

/// A `RpbContent` read from `s`, or `None` where `s` is malformed: its
/// fields merged into an empty message with the full allowance of 100.
pub open spec fn rpb_content_decode(s: Seq<u8>) -> Option<RpbContentView> {
    rpb_content_merge(rpb_content_empty(), s, 100)
}

impl RpbContent {
    /// A `RpbContent` with no field set.
    pub fn empty() -> (r: RpbContent)
        ensures
            r@ == rpb_content_empty(),
    {
        let r = RpbContent {
            value: Vec::new(),
            content_type: None,
            charset: None,
            content_encoding: None,
            vtag: None,
            links: Vec::new(),
            last_mod: None,
            last_mod_usecs: None,
            usermeta: Vec::new(),
            indexes: Vec::new(),
            deleted: None,
            ttl: None,
        };
        proof {
            assert(r.links@.map_values(|m: RpbLink| m@) =~= Seq::<RpbLinkView>::empty());
            assert(r.usermeta@.map_values(|m: RpbPair| m@) =~= Seq::<RpbPairView>::empty());
            assert(r.indexes@.map_values(|m: RpbPair| m@) =~= Seq::<RpbPairView>::empty());
        }
        r
    }

    /// The bytes of this message, in a new buffer.
    pub fn encode_to_vec(&self) -> (r: Vec<u8>)
        ensures
            r@ == rpb_content_bytes(self@),
    {
        let mut buf: Vec<u8> = Vec::new();
        self.encode(&mut buf);
        proof {
            assert(buf@ =~= rpb_content_bytes(self@));
        }
        buf
    }

    /// Reads the fields of `buf` into this message, as `prost` merges a
    /// `RpbContent`.
    pub fn merge_from(&mut self, buf: &[u8], ctx: u32) -> (res: Result<(), DecodeError>)
        ensures
            match res {
                Ok(()) => rpb_content_merge(old(self)@, buf@, ctx as nat) == Some(final(self)@),
                Err(_) => rpb_content_merge(old(self)@, buf@, ctx as nat) is None,
            },
        decreases ctx, buf@.len(),
    {
        let mut rest = buf;
        while rest.len() > 0
            invariant
                rpb_content_merge(old(self)@, buf@, ctx as nat) == rpb_content_merge(self@, rest@, ctx as nat),
                rest@.len() <= buf@.len(),
            decreases rest@.len(),
        {
            let (f, r2) = match read_field(rest, ctx) {
                Ok(p) => p,
                Err(e) => return Err(e),
            };
            proof {
                lemma_field_parse_len(rest@, ctx as nat);
            }
            match self.apply_field(f, ctx) {
                Ok(()) => {},
                Err(e) => return Err(e),
            }
            rest = r2;
        }
        Ok(())
    }

    /// Reads a `RpbContent` from `buf`, with the full allowance of 100.
    pub fn decode(buf: &[u8]) -> (res: Result<RpbContent, DecodeError>)
        ensures
            match res {
                Ok(m) => rpb_content_decode(buf@) == Some(m@),
                Err(_) => rpb_content_decode(buf@) is None,
            },
    {
        let mut m = RpbContent::empty();
        match m.merge_from(buf, 100) {
            Ok(()) => Ok(m),
            Err(e) => Err(e),
        }
    }

    fn apply_field(&mut self, f: Field, ctx: u32) -> (res: Result<(), DecodeError>)
        ensures
            match res {
                Ok(()) => rpb_content_apply(old(self)@, f@, ctx as nat) == Some(final(self)@),
                Err(_) => rpb_content_apply(old(self)@, f@, ctx as nat) is None,
            },
        decreases ctx, 0nat,
    {
        let Field { tag, data } = f;
        if tag == 1 {
            match data {
                FieldData::Bytes(b) => {
                    self.value = b;
                    Ok(())
                },
                _ => Err(decode_error("invalid wire type")),
            }
        } else if tag == 2 {
            match data {
                FieldData::Bytes(b) => {
                    self.content_type = Some(b);
                    Ok(())
                },
                _ => Err(decode_error("invalid wire type")),
            }
        } else if tag == 3 {
            match data {
                FieldData::Bytes(b) => {
                    self.charset = Some(b);
                    Ok(())
                },
                _ => Err(decode_error("invalid wire type")),
            }
        } else if tag == 4 {
            match data {
                FieldData::Bytes(b) => {
                    self.content_encoding = Some(b);
                    Ok(())
                },
                _ => Err(decode_error("invalid wire type")),
            }
        } else if tag == 5 {
            match data {
                FieldData::Bytes(b) => {
                    self.vtag = Some(b);
                    Ok(())
                },
                _ => Err(decode_error("invalid wire type")),
            }
        } else if tag == 6 {
            match data {
                FieldData::Bytes(b) => {
                    if ctx == 0 {
                        return Err(decode_error("recursion limit reached"));
                    }
                    let mut s = RpbLink::empty();
                    match s.merge_from(b.as_slice(), ctx - 1) {
                        Ok(()) => {
                            let ghost prev = self.links@.map_values(|m: RpbLink| m@);
                            let ghost sv = s@;
                            self.links.push(s);
                            proof {
                                assert(self.links@.map_values(|m: RpbLink| m@) =~= prev.push(sv));
                            }
                            Ok(())
                        },
                        Err(e) => Err(e),
                    }
                },
                _ => Err(decode_error("invalid wire type")),
            }
        } else if tag == 7 {
            match data {
                FieldData::Varint(v) => {
                    self.last_mod = Some(u32_from_code(v));
                    Ok(())
                },
                _ => Err(decode_error("invalid wire type")),
            }
        } else if tag == 8 {
            match data {
                FieldData::Varint(v) => {
                    self.last_mod_usecs = Some(u32_from_code(v));
                    Ok(())
                },
                _ => Err(decode_error("invalid wire type")),
            }
        } else if tag == 9 {
            match data {
                FieldData::Bytes(b) => {
                    if ctx == 0 {
                        return Err(decode_error("recursion limit reached"));
                    }
                    let mut s = RpbPair::empty();
                    match s.merge_from(b.as_slice(), ctx - 1) {
                        Ok(()) => {
                            let ghost prev = self.usermeta@.map_values(|m: RpbPair| m@);
                            let ghost sv = s@;
                            self.usermeta.push(s);
                            proof {
                                assert(self.usermeta@.map_values(|m: RpbPair| m@) =~= prev.push(sv));
                            }
                            Ok(())
                        },
                        Err(e) => Err(e),
                    }
                },
                _ => Err(decode_error("invalid wire type")),
            }
        } else if tag == 10 {
            match data {
                FieldData::Bytes(b) => {
                    if ctx == 0 {
                        return Err(decode_error("recursion limit reached"));
                    }
                    let mut s = RpbPair::empty();
                    match s.merge_from(b.as_slice(), ctx - 1) {
                        Ok(()) => {
                            let ghost prev = self.indexes@.map_values(|m: RpbPair| m@);
                            let ghost sv = s@;
                            self.indexes.push(s);
                            proof {
                                assert(self.indexes@.map_values(|m: RpbPair| m@) =~= prev.push(sv));
                            }
                            Ok(())
                        },
                        Err(e) => Err(e),
                    }
                },
                _ => Err(decode_error("invalid wire type")),
            }
        } else if tag == 11 {
            match data {
                FieldData::Varint(v) => {
                    self.deleted = Some(v != 0);
                    Ok(())
                },
                _ => Err(decode_error("invalid wire type")),
            }
        } else if tag == 12 {
            match data {
                FieldData::Varint(v) => {
                    self.ttl = Some(u32_from_code(v));
                    Ok(())
                },
                _ => Err(decode_error("invalid wire type")),
            }
        } else if ctx == 0 {
            Err(decode_error("recursion limit reached"))
        } else {
            Ok(())
        }
    }

}

impl WireMessage for RpbContent {
    open spec fn wire_bytes(&self) -> Seq<u8> {
        rpb_content_bytes(self@)
    }

    fn encode(&self, buf: &mut Vec<u8>) {
        let ghost start = buf@;
        put_bytes_field(buf, 1, self.value.as_slice());
        let ghost mut acc = bytes_piece(1, self@.value);
        proof {
            assert(buf@ == start + acc);
        }
        put_opt_bytes(buf, 2, &self.content_type);
        proof {
            lemma_concat_assoc(start, acc, opt_bytes_piece(2, self@.content_type));
            acc = acc + opt_bytes_piece(2, self@.content_type);
        }
        put_opt_bytes(buf, 3, &self.charset);
        proof {
            lemma_concat_assoc(start, acc, opt_bytes_piece(3, self@.charset));
            acc = acc + opt_bytes_piece(3, self@.charset);
        }
        put_opt_bytes(buf, 4, &self.content_encoding);
        proof {
            lemma_concat_assoc(start, acc, opt_bytes_piece(4, self@.content_encoding));
            acc = acc + opt_bytes_piece(4, self@.content_encoding);
        }
        put_opt_bytes(buf, 5, &self.vtag);
        proof {
            lemma_concat_assoc(start, acc, opt_bytes_piece(5, self@.vtag));
            acc = acc + opt_bytes_piece(5, self@.vtag);
        }
        put_rep_message(buf, 6, &self.links);
        proof {
            assert(messages_bytes(self.links@) =~= self@.links.map_values(|s: RpbLinkView| rpb_link_bytes(s)));
            lemma_concat_assoc(start, acc, rep_bytes_piece(6, self@.links.map_values(|s: RpbLinkView| rpb_link_bytes(s))));
            acc = acc + rep_bytes_piece(6, self@.links.map_values(|s: RpbLinkView| rpb_link_bytes(s)));
        }
        put_opt_u32(buf, 7, self.last_mod);
        proof {
            lemma_concat_assoc(start, acc, opt_varint_piece(7, opt_u32_code(self@.last_mod)));
            acc = acc + opt_varint_piece(7, opt_u32_code(self@.last_mod));
        }
        put_opt_u32(buf, 8, self.last_mod_usecs);
        proof {
            lemma_concat_assoc(start, acc, opt_varint_piece(8, opt_u32_code(self@.last_mod_usecs)));
            acc = acc + opt_varint_piece(8, opt_u32_code(self@.last_mod_usecs));
        }
        put_rep_message(buf, 9, &self.usermeta);
        proof {
            assert(messages_bytes(self.usermeta@) =~= self@.usermeta.map_values(|s: RpbPairView| rpb_pair_bytes(s)));
            lemma_concat_assoc(start, acc, rep_bytes_piece(9, self@.usermeta.map_values(|s: RpbPairView| rpb_pair_bytes(s))));
            acc = acc + rep_bytes_piece(9, self@.usermeta.map_values(|s: RpbPairView| rpb_pair_bytes(s)));
        }
        put_rep_message(buf, 10, &self.indexes);
        proof {
            assert(messages_bytes(self.indexes@) =~= self@.indexes.map_values(|s: RpbPairView| rpb_pair_bytes(s)));
            lemma_concat_assoc(start, acc, rep_bytes_piece(10, self@.indexes.map_values(|s: RpbPairView| rpb_pair_bytes(s))));
            acc = acc + rep_bytes_piece(10, self@.indexes.map_values(|s: RpbPairView| rpb_pair_bytes(s)));
        }
        put_opt_bool(buf, 11, self.deleted);
        proof {
            lemma_concat_assoc(start, acc, opt_varint_piece(11, opt_bool_code(self@.deleted)));
            acc = acc + opt_varint_piece(11, opt_bool_code(self@.deleted));
        }
        put_opt_u32(buf, 12, self.ttl);
        proof {
            lemma_concat_assoc(start, acc, opt_varint_piece(12, opt_u32_code(self@.ttl)));
            acc = acc + opt_varint_piece(12, opt_u32_code(self@.ttl));
        }
        proof {
            assert(acc == rpb_content_bytes(self@));
        }
    }
}

/// A request to fetch an object.
#[derive(Clone, Debug)]
pub struct RpbGetReq {
    pub bucket: Vec<u8>,
    pub key: Vec<u8>,
    pub r: Option<u32>,
    pub pr: Option<u32>,
    pub basic_quorum: Option<bool>,
    pub notfound_ok: Option<bool>,
    pub if_modified: Option<Vec<u8>>,
    pub head: Option<bool>,
    pub deletedvclock: Option<bool>,
    pub timeout: Option<u32>,
    pub sloppy_quorum: Option<bool>,
    pub n_val: Option<u32>,
    pub bucket_type: Option<Vec<u8>>,
}

/// The value of a `RpbGetReq`.
pub struct RpbGetReqView {
    pub bucket: Seq<u8>,
    pub key: Seq<u8>,
    pub r: Option<u32>,
    pub pr: Option<u32>,
    pub basic_quorum: Option<bool>,
    pub notfound_ok: Option<bool>,
    pub if_modified: Option<Seq<u8>>,
    pub head: Option<bool>,
    pub deletedvclock: Option<bool>,
    pub timeout: Option<u32>,
    pub sloppy_quorum: Option<bool>,
    pub n_val: Option<u32>,
    pub bucket_type: Option<Seq<u8>>,
}

impl View for RpbGetReq {
    type V = RpbGetReqView;

    open spec fn view(&self) -> RpbGetReqView {
        RpbGetReqView {
            bucket: self.bucket@,
            key: self.key@,
            r: self.r,
            pr: self.pr,
            basic_quorum: self.basic_quorum,
            notfound_ok: self.notfound_ok,
            if_modified: opt_bytes_view(self.if_modified),
            head: self.head,
            deletedvclock: self.deletedvclock,
            timeout: self.timeout,
            sloppy_quorum: self.sloppy_quorum,
            n_val: self.n_val,
            bucket_type: opt_bytes_view(self.bucket_type),
        }
    }
}

/// A `RpbGetReq` with no field set.
pub open spec fn rpb_get_req_empty() -> RpbGetReqView {
    RpbGetReqView {
        bucket: Seq::empty(),
        key: Seq::empty(),
        r: None,
        pr: None,
        basic_quorum: None,
        notfound_ok: None,
        if_modified: None,
        head: None,
        deletedvclock: None,
        timeout: None,
        sloppy_quorum: None,
        n_val: None,
        bucket_type: None,
    }
}

/// The bytes of a `RpbGetReq`: its fields in the order of their tags.
pub open spec fn rpb_get_req_bytes(m: RpbGetReqView) -> Seq<u8> {
    bytes_piece(1, m.bucket)
        + bytes_piece(2, m.key)
        + opt_varint_piece(3, opt_u32_code(m.r))
        + opt_varint_piece(4, opt_u32_code(m.pr))
        + opt_varint_piece(5, opt_bool_code(m.basic_quorum))
        + opt_varint_piece(6, opt_bool_code(m.notfound_ok))
        + opt_bytes_piece(7, m.if_modified)
        + opt_varint_piece(8, opt_bool_code(m.head))
        + opt_varint_piece(9, opt_bool_code(m.deletedvclock))
        + opt_varint_piece(10, opt_u32_code(m.timeout))
        + opt_varint_piece(11, opt_bool_code(m.sloppy_quorum))
        + opt_varint_piece(12, opt_u32_code(m.n_val))
        + opt_bytes_piece(13, m.bucket_type)
}

/// What one field read from the wire does to a `RpbGetReq`: `None` where
/// the field has a known tag and a payload of another wire type, or a
/// nested message that does not read. Fields of unknown tags are skipped.
/// `ctx` is what is left of the nesting allowance of 100 messages: a
/// nested message, or an unknown field, needs some of it.
pub open spec fn rpb_get_req_apply(m: RpbGetReqView, f: RawField, ctx: nat) -> Option<RpbGetReqView>
    decreases ctx, 0nat,
{
    if f.tag == 1 {
        match f.data {
            RawData::Bytes(b) => Some(RpbGetReqView { bucket: b, ..m }),
            _ => None,
        }
    } else if f.tag == 2 {
        match f.data {
            RawData::Bytes(b) => Some(RpbGetReqView { key: b, ..m }),
            _ => None,
        }
    } else if f.tag == 3 {
        match f.data {
            RawData::Varint(v) => Some(RpbGetReqView { r: Some(u32_of_code(v)), ..m }),
            _ => None,
        }
    } else if f.tag == 4 {
        match f.data {
            RawData::Varint(v) => Some(RpbGetReqView { pr: Some(u32_of_code(v)), ..m }),
            _ => None,
        }
    } else if f.tag == 5 {
        match f.data {
            RawData::Varint(v) => Some(RpbGetReqView { basic_quorum: Some(v != 0), ..m }),
            _ => None,
        }
    } else if f.tag == 6 {
        match f.data {
            RawData::Varint(v) => Some(RpbGetReqView { notfound_ok: Some(v != 0), ..m }),
            _ => None,
        }
    } else if f.tag == 7 {
        match f.data {
            RawData::Bytes(b) => Some(RpbGetReqView { if_modified: Some(b), ..m }),
            _ => None,
        }
    } else if f.tag == 8 {
        match f.data {
            RawData::Varint(v) => Some(RpbGetReqView { head: Some(v != 0), ..m }),
            _ => None,
        }
    } else if f.tag == 9 {
        match f.data {
            RawData::Varint(v) => Some(RpbGetReqView { deletedvclock: Some(v != 0), ..m }),
            _ => None,
        }
    } else if f.tag == 10 {
        match f.data {
            RawData::Varint(v) => Some(RpbGetReqView { timeout: Some(u32_of_code(v)), ..m }),
            _ => None,
        }
    } else if f.tag == 11 {
        match f.data {
            RawData::Varint(v) => Some(RpbGetReqView { sloppy_quorum: Some(v != 0), ..m }),
            _ => None,
        }
    } else if f.tag == 12 {
        match f.data {
            RawData::Varint(v) => Some(RpbGetReqView { n_val: Some(u32_of_code(v)), ..m }),
            _ => None,
        }
    } else if f.tag == 13 {
        match f.data {
            RawData::Bytes(b) => Some(RpbGetReqView { bucket_type: Some(b), ..m }),
            _ => None,
        }
    } else if ctx == 0 {
        None
    } else {
        Some(m)
    }
}

/// Reads the fields of `s` into `m`, one after the other, as `prost`
/// merges a `RpbGetReq`.
pub open spec fn rpb_get_req_merge(m: RpbGetReqView, s: Seq<u8>, ctx: nat) -> Option<RpbGetReqView>
    decreases ctx, s.len(),
{
    if s.len() == 0 {
        Some(m)
    } else {
        match field_parse(s, ctx) {
            Some((f, n)) => if 1 <= n <= s.len() {
                match rpb_get_req_apply(m, f, ctx) {
                    Some(m2) => rpb_get_req_merge(m2, s.skip(n as int), ctx),
                    None => None,
                }
            } else {
                None
            },
            None => None,
        }
    }
}

/// A `RpbGetReq` read from `s`, or `None` where `s` is malformed: its
/// fields merged into an empty message with the full allowance of 100.
pub open spec fn rpb_get_req_decode(s: Seq<u8>) -> Option<RpbGetReqView> {
    rpb_get_req_merge(rpb_get_req_empty(), s, 100)
}

impl RpbGetReq {
    /// A `RpbGetReq` with no field set.
    pub fn empty() -> (r: RpbGetReq)
        ensures
            r@ == rpb_get_req_empty(),
    {
        let r = RpbGetReq {
            bucket: Vec::new(),
            key: Vec::new(),
            r: None,
            pr: None,
            basic_quorum: None,
            notfound_ok: None,
            if_modified: None,
            head: None,
            deletedvclock: None,
            timeout: None,
            sloppy_quorum: None,
            n_val: None,
            bucket_type: None,
        };
        r
    }

    /// The bytes of this message, in a new buffer.
    pub fn encode_to_vec(&self) -> (r: Vec<u8>)
        ensures
            r@ == rpb_get_req_bytes(self@),
    {
        let mut buf: Vec<u8> = Vec::new();
        self.encode(&mut buf);
        proof {
            assert(buf@ =~= rpb_get_req_bytes(self@));
        }
        buf
    }

}

impl WireMessage for RpbGetReq {
    open spec fn wire_bytes(&self) -> Seq<u8> {
        rpb_get_req_bytes(self@)
    }

    fn encode(&self, buf: &mut Vec<u8>) {
        let ghost start = buf@;
        put_bytes_field(buf, 1, self.bucket.as_slice());
        let ghost mut acc = bytes_piece(1, self@.bucket);
        proof {
            assert(buf@ == start + acc);
        }
        put_bytes_field(buf, 2, self.key.as_slice());
        proof {
            lemma_concat_assoc(start, acc, bytes_piece(2, self@.key));
            acc = acc + bytes_piece(2, self@.key);
        }
        put_opt_u32(buf, 3, self.r);
        proof {
            lemma_concat_assoc(start, acc, opt_varint_piece(3, opt_u32_code(self@.r)));
            acc = acc + opt_varint_piece(3, opt_u32_code(self@.r));
        }
        put_opt_u32(buf, 4, self.pr);
        proof {
            lemma_concat_assoc(start, acc, opt_varint_piece(4, opt_u32_code(self@.pr)));
            acc = acc + opt_varint_piece(4, opt_u32_code(self@.pr));
        }
        put_opt_bool(buf, 5, self.basic_quorum);
        proof {
            lemma_concat_assoc(start, acc, opt_varint_piece(5, opt_bool_code(self@.basic_quorum)));
            acc = acc + opt_varint_piece(5, opt_bool_code(self@.basic_quorum));
        }
        put_opt_bool(buf, 6, self.notfound_ok);
        proof {
            lemma_concat_assoc(start, acc, opt_varint_piece(6, opt_bool_code(self@.notfound_ok)));
            acc = acc + opt_varint_piece(6, opt_bool_code(self@.notfound_ok));
        }
        put_opt_bytes(buf, 7, &self.if_modified);
        proof {
            lemma_concat_assoc(start, acc, opt_bytes_piece(7, self@.if_modified));
            acc = acc + opt_bytes_piece(7, self@.if_modified);
        }
        put_opt_bool(buf, 8, self.head);
        proof {
            lemma_concat_assoc(start, acc, opt_varint_piece(8, opt_bool_code(self@.head)));
            acc = acc + opt_varint_piece(8, opt_bool_code(self@.head));
        }
        put_opt_bool(buf, 9, self.deletedvclock);
        proof {
            lemma_concat_assoc(start, acc, opt_varint_piece(9, opt_bool_code(self@.deletedvclock)));
            acc = acc + opt_varint_piece(9, opt_bool_code(self@.deletedvclock));
        }
        put_opt_u32(buf, 10, self.timeout);
        proof {
            lemma_concat_assoc(start, acc, opt_varint_piece(10, opt_u32_code(self@.timeout)));
            acc = acc + opt_varint_piece(10, opt_u32_code(self@.timeout));
        }
        put_opt_bool(buf, 11, self.sloppy_quorum);
        proof {
            lemma_concat_assoc(start, acc, opt_varint_piece(11, opt_bool_code(self@.sloppy_quorum)));
            acc = acc + opt_varint_piece(11, opt_bool_code(self@.sloppy_quorum));
        }
        put_opt_u32(buf, 12, self.n_val);
        proof {
            lemma_concat_assoc(start, acc, opt_varint_piece(12, opt_u32_code(self@.n_val)));
            acc = acc + opt_varint_piece(12, opt_u32_code(self@.n_val));
        }
        put_opt_bytes(buf, 13, &self.bucket_type);
        proof {
            lemma_concat_assoc(start, acc, opt_bytes_piece(13, self@.bucket_type));
            acc = acc + opt_bytes_piece(13, self@.bucket_type);
        }
        proof {
            assert(acc == rpb_get_req_bytes(self@));
        }
    }
}

/// An object as the server sends it: its siblings and vector clock.
#[derive(Clone, Debug)]
pub struct RpbGetResp {
    pub content: Vec<RpbContent>,
    pub vclock: Option<Vec<u8>>,
    pub unchanged: Option<bool>,
}

/// The value of a `RpbGetResp`.
pub struct RpbGetRespView {
    pub content: Seq<RpbContentView>,
    pub vclock: Option<Seq<u8>>,
    pub unchanged: Option<bool>,
}

impl View for RpbGetResp {
    type V = RpbGetRespView;

    open spec fn view(&self) -> RpbGetRespView {
        RpbGetRespView {
            content: self.content@.map_values(|m: RpbContent| m@),
            vclock: opt_bytes_view(self.vclock),
            unchanged: self.unchanged,
        }
    }
}

/// A `RpbGetResp` with no field set.
pub open spec fn rpb_get_resp_empty() -> RpbGetRespView {
    RpbGetRespView {
        content: Seq::empty(),
        vclock: None,
        unchanged: None,
    }
}

/// The bytes of a `RpbGetResp`: its fields in the order of their tags.
pub open spec fn rpb_get_resp_bytes(m: RpbGetRespView) -> Seq<u8> {
    rep_bytes_piece(1, m.content.map_values(|s: RpbContentView| rpb_content_bytes(s)))
        + opt_bytes_piece(2, m.vclock)
        + opt_varint_piece(3, opt_bool_code(m.unchanged))
}

/// What one field read from the wire does to a `RpbGetResp`: `None` where
/// the field has a known tag and a payload of another wire type, or a
/// nested message that does not read. Fields of unknown tags are skipped.
/// `ctx` is what is left of the nesting allowance of 100 messages: a
/// nested message, or an unknown field, needs some of it.
pub open spec fn rpb_get_resp_apply(m: RpbGetRespView, f: RawField, ctx: nat) -> Option<RpbGetRespView>
    decreases ctx, 0nat,
{
    if f.tag == 1 {
        match f.data {
            RawData::Bytes(b) => if ctx == 0 {
                None
            } else {
                match rpb_content_merge(rpb_content_empty(), b, (ctx - 1) as nat) {
                    Some(s) => Some(RpbGetRespView { content: m.content.push(s), ..m }),
                    None => None,
                }
            },
            _ => None,
        }
    } else if f.tag == 2 {
        match f.data {
            RawData::Bytes(b) => Some(RpbGetRespView { vclock: Some(b), ..m }),
            _ => None,
        }
    } else if f.tag == 3 {
        match f.data {
            RawData::Varint(v) => Some(RpbGetRespView { unchanged: Some(v != 0), ..m }),
            _ => None,
        }
    } else if ctx == 0 {
        None
    } else {
        Some(m)
    }
}

/// Reads the fields of `s` into `m`, one after the other, as `prost`
/// merges a `RpbGetResp`.
pub open spec fn rpb_get_resp_merge(m: RpbGetRespView, s: Seq<u8>, ctx: nat) -> Option<RpbGetRespView>
    decreases ctx, s.len(),
{
    if s.len() == 0 {
        Some(m)
    } else {
        match field_parse(s, ctx) {
            Some((f, n)) => if 1 <= n <= s.len() {
                match rpb_get_resp_apply(m, f, ctx) {
                    Some(m2) => rpb_get_resp_merge(m2, s.skip(n as int), ctx),
                    None => None,
                }
            } else {
                None
            },
            None => None,
        }
    }
}

/// A `RpbGetResp` read from `s`, or `None` where `s` is malformed: its
/// fields merged into an empty message with the full allowance of 100.
pub open spec fn rpb_get_resp_decode(s: Seq<u8>) -> Option<RpbGetRespView> {
    rpb_get_resp_merge(rpb_get_resp_empty(), s, 100)
}

impl RpbGetResp {
    /// A `RpbGetResp` with no field set.
    pub fn empty() -> (r: RpbGetResp)
        ensures
            r@ == rpb_get_resp_empty(),
    {
        let r = RpbGetResp {
            content: Vec::new(),
            vclock: None,
            unchanged: None,
        };
        proof {
            assert(r.content@.map_values(|m: RpbContent| m@) =~= Seq::<RpbContentView>::empty());
        }
        r
    }

    /// Reads the fields of `buf` into this message, as `prost` merges a
    /// `RpbGetResp`.
    pub fn merge_from(&mut self, buf: &[u8], ctx: u32) -> (res: Result<(), DecodeError>)
        ensures
            match res {
                Ok(()) => rpb_get_resp_merge(old(self)@, buf@, ctx as nat) == Some(final(self)@),
                Err(_) => rpb_get_resp_merge(old(self)@, buf@, ctx as nat) is None,
            },
        decreases ctx, buf@.len(),
    {
        let mut rest = buf;
        while rest.len() > 0
            invariant
                rpb_get_resp_merge(old(self)@, buf@, ctx as nat) == rpb_get_resp_merge(self@, rest@, ctx as nat),
                rest@.len() <= buf@.len(),
            decreases rest@.len(),
        {
            let (f, r2) = match read_field(rest, ctx) {
                Ok(p) => p,
                Err(e) => return Err(e),
            };
            proof {
                lemma_field_parse_len(rest@, ctx as nat);
            }
            match self.apply_field(f, ctx) {
                Ok(()) => {},
                Err(e) => return Err(e),
            }
            rest = r2;
        }
        Ok(())
    }

    /// Reads a `RpbGetResp` from `buf`, with the full allowance of 100.
    pub fn decode(buf: &[u8]) -> (res: Result<RpbGetResp, DecodeError>)
        ensures
            match res {
                Ok(m) => rpb_get_resp_decode(buf@) == Some(m@),
                Err(_) => rpb_get_resp_decode(buf@) is None,
            },
    {
        let mut m = RpbGetResp::empty();
        match m.merge_from(buf, 100) {
            Ok(()) => Ok(m),
            Err(e) => Err(e),
        }
    }

    fn apply_field(&mut self, f: Field, ctx: u32) -> (res: Result<(), DecodeError>)
        ensures
            match res {
                Ok(()) => rpb_get_resp_apply(old(self)@, f@, ctx as nat) == Some(final(self)@),
                Err(_) => rpb_get_resp_apply(old(self)@, f@, ctx as nat) is None,
            },
        decreases ctx, 0nat,
    {
        let Field { tag, data } = f;
        if tag == 1 {
            match data {
                FieldData::Bytes(b) => {
                    if ctx == 0 {
                        return Err(decode_error("recursion limit reached"));
                    }
                    let mut s = RpbContent::empty();
                    match s.merge_from(b.as_slice(), ctx - 1) {
                        Ok(()) => {
                            let ghost prev = self.content@.map_values(|m: RpbContent| m@);
                            let ghost sv = s@;
                            self.content.push(s);
                            proof {
                                assert(self.content@.map_values(|m: RpbContent| m@) =~= prev.push(sv));
                            }
                            Ok(())
                        },
                        Err(e) => Err(e),
                    }
                },
                _ => Err(decode_error("invalid wire type")),
            }
        } else if tag == 2 {
            match data {
                FieldData::Bytes(b) => {
                    self.vclock = Some(b);
                    Ok(())
                },
                _ => Err(decode_error("invalid wire type")),
            }
        } else if tag == 3 {
            match data {
                FieldData::Varint(v) => {
                    self.unchanged = Some(v != 0);
                    Ok(())
                },
                _ => Err(decode_error("invalid wire type")),
            }
        } else if ctx == 0 {
            Err(decode_error("recursion limit reached"))
        } else {
            Ok(())
        }
    }

}

/// A request to store an object.
#[derive(Clone, Debug)]
pub struct RpbPutReq {
    pub bucket: Vec<u8>,
    pub key: Option<Vec<u8>>,
    pub vclock: Option<Vec<u8>>,
    pub content: RpbContent,
    pub w: Option<u32>,
    pub dw: Option<u32>,
    pub return_body: Option<bool>,
    pub pw: Option<u32>,
    pub if_not_modified: Option<bool>,
    pub if_none_match: Option<bool>,
    pub return_head: Option<bool>,
    pub timeout: Option<u32>,
    pub asis: Option<bool>,
    pub sloppy_quorum: Option<bool>,
    pub n_val: Option<u32>,
    pub bucket_type: Option<Vec<u8>>,
}

/// The value of a `RpbPutReq`.
pub struct RpbPutReqView {
    pub bucket: Seq<u8>,
    pub key: Option<Seq<u8>>,
    pub vclock: Option<Seq<u8>>,
    pub content: RpbContentView,
    pub w: Option<u32>,
    pub dw: Option<u32>,
    pub return_body: Option<bool>,
    pub pw: Option<u32>,
    pub if_not_modified: Option<bool>,
    pub if_none_match: Option<bool>,
    pub return_head: Option<bool>,
    pub timeout: Option<u32>,
    pub asis: Option<bool>,
    pub sloppy_quorum: Option<bool>,
    pub n_val: Option<u32>,
    pub bucket_type: Option<Seq<u8>>,
}

impl View for RpbPutReq {
    type V = RpbPutReqView;

    open spec fn view(&self) -> RpbPutReqView {
        RpbPutReqView {
            bucket: self.bucket@,
            key: opt_bytes_view(self.key),
            vclock: opt_bytes_view(self.vclock),
            content: self.content@,
            w: self.w,
            dw: self.dw,
            return_body: self.return_body,
            pw: self.pw,
            if_not_modified: self.if_not_modified,
            if_none_match: self.if_none_match,
            return_head: self.return_head,
            timeout: self.timeout,
            asis: self.asis,
            sloppy_quorum: self.sloppy_quorum,
            n_val: self.n_val,
            bucket_type: opt_bytes_view(self.bucket_type),
        }
    }
}

/// A `RpbPutReq` with no field set.
pub open spec fn rpb_put_req_empty() -> RpbPutReqView {
    RpbPutReqView {
        bucket: Seq::empty(),
        key: None,
        vclock: None,
        content: rpb_content_empty(),
        w: None,
        dw: None,
        return_body: None,
        pw: None,
        if_not_modified: None,
        if_none_match: None,
        return_head: None,
        timeout: None,
        asis: None,
        sloppy_quorum: None,
        n_val: None,
        bucket_type: None,
    }
}

/// The bytes of a `RpbPutReq`: its fields in the order of their tags.
pub open spec fn rpb_put_req_bytes(m: RpbPutReqView) -> Seq<u8> {
    bytes_piece(1, m.bucket)
        + opt_bytes_piece(2, m.key)
        + opt_bytes_piece(3, m.vclock)
        + bytes_piece(4, rpb_content_bytes(m.content))
        + opt_varint_piece(5, opt_u32_code(m.w))
        + opt_varint_piece(6, opt_u32_code(m.dw))
        + opt_varint_piece(7, opt_bool_code(m.return_body))
        + opt_varint_piece(8, opt_u32_code(m.pw))
        + opt_varint_piece(9, opt_bool_code(m.if_not_modified))
        + opt_varint_piece(10, opt_bool_code(m.if_none_match))
        + opt_varint_piece(11, opt_bool_code(m.return_head))
        + opt_varint_piece(12, opt_u32_code(m.timeout))
        + opt_varint_piece(13, opt_bool_code(m.asis))
        + opt_varint_piece(14, opt_bool_code(m.sloppy_quorum))
        + opt_varint_piece(15, opt_u32_code(m.n_val))
        + opt_bytes_piece(16, m.bucket_type)
}

/// What one field read from the wire does to a `RpbPutReq`: `None` where
/// the field has a known tag and a payload of another wire type, or a
/// nested message that does not read. Fields of unknown tags are skipped.
/// `ctx` is what is left of the nesting allowance of 100 messages: a
/// nested message, or an unknown field, needs some of it.
pub open spec fn rpb_put_req_apply(m: RpbPutReqView, f: RawField, ctx: nat) -> Option<RpbPutReqView>
    decreases ctx, 0nat,
{
    if f.tag == 1 {
        match f.data {
            RawData::Bytes(b) => Some(RpbPutReqView { bucket: b, ..m }),
            _ => None,
        }
    } else if f.tag == 2 {
        match f.data {
            RawData::Bytes(b) => Some(RpbPutReqView { key: Some(b), ..m }),
            _ => None,
        }
    } else if f.tag == 3 {
        match f.data {
            RawData::Bytes(b) => Some(RpbPutReqView { vclock: Some(b), ..m }),
            _ => None,
        }
    } else if f.tag == 4 {
        match f.data {
            RawData::Bytes(b) => if ctx == 0 {
                None
            } else {
                match rpb_content_merge(m.content, b, (ctx - 1) as nat) {
                    Some(s) => Some(RpbPutReqView { content: s, ..m }),
                    None => None,
                }
            },
            _ => None,
        }
    } else if f.tag == 5 {
        match f.data {
            RawData::Varint(v) => Some(RpbPutReqView { w: Some(u32_of_code(v)), ..m }),
            _ => None,
        }
    } else if f.tag == 6 {
        match f.data {
            RawData::Varint(v) => Some(RpbPutReqView { dw: Some(u32_of_code(v)), ..m }),
            _ => None,
        }
    } else if f.tag == 7 {
        match f.data {
            RawData::Varint(v) => Some(RpbPutReqView { return_body: Some(v != 0), ..m }),
            _ => None,
        }
    } else if f.tag == 8 {
        match f.data {
            RawData::Varint(v) => Some(RpbPutReqView { pw: Some(u32_of_code(v)), ..m }),
            _ => None,
        }
    } else if f.tag == 9 {
        match f.data {
            RawData::Varint(v) => Some(RpbPutReqView { if_not_modified: Some(v != 0), ..m }),
            _ => None,
        }
    } else if f.tag == 10 {
        match f.data {
            RawData::Varint(v) => Some(RpbPutReqView { if_none_match: Some(v != 0), ..m }),
            _ => None,
        }
    } else if f.tag == 11 {
        match f.data {
            RawData::Varint(v) => Some(RpbPutReqView { return_head: Some(v != 0), ..m }),
            _ => None,
        }
    } else if f.tag == 12 {
        match f.data {
            RawData::Varint(v) => Some(RpbPutReqView { timeout: Some(u32_of_code(v)), ..m }),
            _ => None,
        }
    } else if f.tag == 13 {
        match f.data {
            RawData::Varint(v) => Some(RpbPutReqView { asis: Some(v != 0), ..m }),
            _ => None,
        }
    } else if f.tag == 14 {
        match f.data {
            RawData::Varint(v) => Some(RpbPutReqView { sloppy_quorum: Some(v != 0), ..m }),
            _ => None,
        }
    } else if f.tag == 15 {
        match f.data {
            RawData::Varint(v) => Some(RpbPutReqView { n_val: Some(u32_of_code(v)), ..m }),
            _ => None,
        }
    } else if f.tag == 16 {
        match f.data {
            RawData::Bytes(b) => Some(RpbPutReqView { bucket_type: Some(b), ..m }),
            _ => None,
        }
    } else if ctx == 0 {
        None
    } else {
        Some(m)
    }
}

/// Reads the fields of `s` into `m`, one after the other, as `prost`
/// merges a `RpbPutReq`.
pub open spec fn rpb_put_req_merge(m: RpbPutReqView, s: Seq<u8>, ctx: nat) -> Option<RpbPutReqView>
    decreases ctx, s.len(),
{
    if s.len() == 0 {
        Some(m)
    } else {
        match field_parse(s, ctx) {
            Some((f, n)) => if 1 <= n <= s.len() {
                match rpb_put_req_apply(m, f, ctx) {
                    Some(m2) => rpb_put_req_merge(m2, s.skip(n as int), ctx),
                    None => None,
                }
            } else {
                None
            },
            None => None,
        }
    }
}

/// A `RpbPutReq` read from `s`, or `None` where `s` is malformed: its
/// fields merged into an empty message with the full allowance of 100.
pub open spec fn rpb_put_req_decode(s: Seq<u8>) -> Option<RpbPutReqView> {
    rpb_put_req_merge(rpb_put_req_empty(), s, 100)
}

impl RpbPutReq {
    /// A `RpbPutReq` with no field set.
    pub fn empty() -> (r: RpbPutReq)
        ensures
            r@ == rpb_put_req_empty(),
    {
        let r = RpbPutReq {
            bucket: Vec::new(),
            key: None,
            vclock: None,
            content: RpbContent::empty(),
            w: None,
            dw: None,
            return_body: None,
            pw: None,
            if_not_modified: None,
            if_none_match: None,
            return_head: None,
            timeout: None,
            asis: None,
            sloppy_quorum: None,
            n_val: None,
            bucket_type: None,
        };
        r
    }

    /// The bytes of this message, in a new buffer.
    pub fn encode_to_vec(&self) -> (r: Vec<u8>)
        ensures
            r@ == rpb_put_req_bytes(self@),
    {
        let mut buf: Vec<u8> = Vec::new();
        self.encode(&mut buf);
        proof {
            assert(buf@ =~= rpb_put_req_bytes(self@));
        }
        buf
    }

}

impl WireMessage for RpbPutReq {
    open spec fn wire_bytes(&self) -> Seq<u8> {
        rpb_put_req_bytes(self@)
    }

    fn encode(&self, buf: &mut Vec<u8>) {
        let ghost start = buf@;
        put_bytes_field(buf, 1, self.bucket.as_slice());
        let ghost mut acc = bytes_piece(1, self@.bucket);
        proof {
            assert(buf@ == start + acc);
        }
        put_opt_bytes(buf, 2, &self.key);
        proof {
            lemma_concat_assoc(start, acc, opt_bytes_piece(2, self@.key));
            acc = acc + opt_bytes_piece(2, self@.key);
        }
        put_opt_bytes(buf, 3, &self.vclock);
        proof {
            lemma_concat_assoc(start, acc, opt_bytes_piece(3, self@.vclock));
            acc = acc + opt_bytes_piece(3, self@.vclock);
        }
        put_message(buf, 4, &self.content);
        proof {
            lemma_concat_assoc(start, acc, bytes_piece(4, rpb_content_bytes(self@.content)));
            acc = acc + bytes_piece(4, rpb_content_bytes(self@.content));
        }
        put_opt_u32(buf, 5, self.w);
        proof {
            lemma_concat_assoc(start, acc, opt_varint_piece(5, opt_u32_code(self@.w)));
            acc = acc + opt_varint_piece(5, opt_u32_code(self@.w));
        }
        put_opt_u32(buf, 6, self.dw);
        proof {
            lemma_concat_assoc(start, acc, opt_varint_piece(6, opt_u32_code(self@.dw)));
            acc = acc + opt_varint_piece(6, opt_u32_code(self@.dw));
        }
        put_opt_bool(buf, 7, self.return_body);
        proof {
            lemma_concat_assoc(start, acc, opt_varint_piece(7, opt_bool_code(self@.return_body)));
            acc = acc + opt_varint_piece(7, opt_bool_code(self@.return_body));
        }
        put_opt_u32(buf, 8, self.pw);
        proof {
            lemma_concat_assoc(start, acc, opt_varint_piece(8, opt_u32_code(self@.pw)));
            acc = acc + opt_varint_piece(8, opt_u32_code(self@.pw));
        }
        put_opt_bool(buf, 9, self.if_not_modified);
        proof {
            lemma_concat_assoc(start, acc, opt_varint_piece(9, opt_bool_code(self@.if_not_modified)));
            acc = acc + opt_varint_piece(9, opt_bool_code(self@.if_not_modified));
        }
        put_opt_bool(buf, 10, self.if_none_match);
        proof {
            lemma_concat_assoc(start, acc, opt_varint_piece(10, opt_bool_code(self@.if_none_match)));
            acc = acc + opt_varint_piece(10, opt_bool_code(self@.if_none_match));
        }
        put_opt_bool(buf, 11, self.return_head);
        proof {
            lemma_concat_assoc(start, acc, opt_varint_piece(11, opt_bool_code(self@.return_head)));
            acc = acc + opt_varint_piece(11, opt_bool_code(self@.return_head));
        }
        put_opt_u32(buf, 12, self.timeout);
        proof {
            lemma_concat_assoc(start, acc, opt_varint_piece(12, opt_u32_code(self@.timeout)));
            acc = acc + opt_varint_piece(12, opt_u32_code(self@.timeout));
        }
        put_opt_bool(buf, 13, self.asis);
        proof {
            lemma_concat_assoc(start, acc, opt_varint_piece(13, opt_bool_code(self@.asis)));
            acc = acc + opt_varint_piece(13, opt_bool_code(self@.asis));
        }
        put_opt_bool(buf, 14, self.sloppy_quorum);
        proof {
            lemma_concat_assoc(start, acc, opt_varint_piece(14, opt_bool_code(self@.sloppy_quorum)));
            acc = acc + opt_varint_piece(14, opt_bool_code(self@.sloppy_quorum));
        }
        put_opt_u32(buf, 15, self.n_val);
        proof {
            lemma_concat_assoc(start, acc, opt_varint_piece(15, opt_u32_code(self@.n_val)));
            acc = acc + opt_varint_piece(15, opt_u32_code(self@.n_val));
        }
        put_opt_bytes(buf, 16, &self.bucket_type);
        proof {
            lemma_concat_assoc(start, acc, opt_bytes_piece(16, self@.bucket_type));
            acc = acc + opt_bytes_piece(16, self@.bucket_type);
        }
        proof {
            assert(acc == rpb_put_req_bytes(self@));
        }
    }
}

/// A request to delete an object.
#[derive(Clone, Debug)]
pub struct RpbDelReq {
    pub bucket: Vec<u8>,
    pub key: Vec<u8>,
    pub rw: Option<u32>,
    pub vclock: Option<Vec<u8>>,
    pub r: Option<u32>,
    pub w: Option<u32>,
    pub pr: Option<u32>,
    pub pw: Option<u32>,
    pub dw: Option<u32>,
    pub timeout: Option<u32>,
    pub sloppy_quorum: Option<bool>,
    pub n_val: Option<u32>,
    pub bucket_type: Option<Vec<u8>>,
}

/// The value of a `RpbDelReq`.
pub struct RpbDelReqView {
    pub bucket: Seq<u8>,
    pub key: Seq<u8>,
    pub rw: Option<u32>,
    pub vclock: Option<Seq<u8>>,
    pub r: Option<u32>,
    pub w: Option<u32>,
    pub pr: Option<u32>,
    pub pw: Option<u32>,
    pub dw: Option<u32>,
    pub timeout: Option<u32>,
    pub sloppy_quorum: Option<bool>,
    pub n_val: Option<u32>,
    pub bucket_type: Option<Seq<u8>>,
}

impl View for RpbDelReq {
    type V = RpbDelReqView;

    open spec fn view(&self) -> RpbDelReqView {
        RpbDelReqView {
            bucket: self.bucket@,
            key: self.key@,
            rw: self.rw,
            vclock: opt_bytes_view(self.vclock),
            r: self.r,
            w: self.w,
            pr: self.pr,
            pw: self.pw,
            dw: self.dw,
            timeout: self.timeout,
            sloppy_quorum: self.sloppy_quorum,
            n_val: self.n_val,
            bucket_type: opt_bytes_view(self.bucket_type),
        }
    }
}

/// A `RpbDelReq` with no field set.
pub open spec fn rpb_del_req_empty() -> RpbDelReqView {
    RpbDelReqView {
        bucket: Seq::empty(),
        key: Seq::empty(),
        rw: None,
        vclock: None,
        r: None,
        w: None,
        pr: None,
        pw: None,
        dw: None,
        timeout: None,
        sloppy_quorum: None,
        n_val: None,
        bucket_type: None,
    }
}

/// The bytes of a `RpbDelReq`: its fields in the order of their tags.
pub open spec fn rpb_del_req_bytes(m: RpbDelReqView) -> Seq<u8> {
    bytes_piece(1, m.bucket)
        + bytes_piece(2, m.key)
        + opt_varint_piece(3, opt_u32_code(m.rw))
        + opt_bytes_piece(4, m.vclock)
        + opt_varint_piece(5, opt_u32_code(m.r))
        + opt_varint_piece(6, opt_u32_code(m.w))
        + opt_varint_piece(7, opt_u32_code(m.pr))
        + opt_varint_piece(8, opt_u32_code(m.pw))
        + opt_varint_piece(9, opt_u32_code(m.dw))
        + opt_varint_piece(10, opt_u32_code(m.timeout))
        + opt_varint_piece(11, opt_bool_code(m.sloppy_quorum))
        + opt_varint_piece(12, opt_u32_code(m.n_val))
        + opt_bytes_piece(13, m.bucket_type)
}

/// What one field read from the wire does to a `RpbDelReq`: `None` where
/// the field has a known tag and a payload of another wire type, or a
/// nested message that does not read. Fields of unknown tags are skipped.
/// `ctx` is what is left of the nesting allowance of 100 messages: a
/// nested message, or an unknown field, needs some of it.
pub open spec fn rpb_del_req_apply(m: RpbDelReqView, f: RawField, ctx: nat) -> Option<RpbDelReqView>
    decreases ctx, 0nat,
{
    if f.tag == 1 {
        match f.data {
            RawData::Bytes(b) => Some(RpbDelReqView { bucket: b, ..m }),
            _ => None,
        }
    } else if f.tag == 2 {
        match f.data {
            RawData::Bytes(b) => Some(RpbDelReqView { key: b, ..m }),
            _ => None,
        }
    } else if f.tag == 3 {
        match f.data {
            RawData::Varint(v) => Some(RpbDelReqView { rw: Some(u32_of_code(v)), ..m }),
            _ => None,
        }
    } else if f.tag == 4 {
        match f.data {
            RawData::Bytes(b) => Some(RpbDelReqView { vclock: Some(b), ..m }),
            _ => None,
        }
    } else if f.tag == 5 {
        match f.data {
            RawData::Varint(v) => Some(RpbDelReqView { r: Some(u32_of_code(v)), ..m }),
            _ => None,
        }
    } else if f.tag == 6 {
        match f.data {
            RawData::Varint(v) => Some(RpbDelReqView { w: Some(u32_of_code(v)), ..m }),
            _ => None,
        }
    } else if f.tag == 7 {
        match f.data {
            RawData::Varint(v) => Some(RpbDelReqView { pr: Some(u32_of_code(v)), ..m }),
            _ => None,
        }
    } else if f.tag == 8 {
        match f.data {
            RawData::Varint(v) => Some(RpbDelReqView { pw: Some(u32_of_code(v)), ..m }),
            _ => None,
        }
    } else if f.tag == 9 {
        match f.data {
            RawData::Varint(v) => Some(RpbDelReqView { dw: Some(u32_of_code(v)), ..m }),
            _ => None,
        }
    } else if f.tag == 10 {
        match f.data {
            RawData::Varint(v) => Some(RpbDelReqView { timeout: Some(u32_of_code(v)), ..m }),
            _ => None,
        }
    } else if f.tag == 11 {
        match f.data {
            RawData::Varint(v) => Some(RpbDelReqView { sloppy_quorum: Some(v != 0), ..m }),
            _ => None,
        }
    } else if f.tag == 12 {
        match f.data {
            RawData::Varint(v) => Some(RpbDelReqView { n_val: Some(u32_of_code(v)), ..m }),
            _ => None,
        }
    } else if f.tag == 13 {
        match f.data {
            RawData::Bytes(b) => Some(RpbDelReqView { bucket_type: Some(b), ..m }),
            _ => None,
        }
    } else if ctx == 0 {
        None
    } else {
        Some(m)
    }
}

/// Reads the fields of `s` into `m`, one after the other, as `prost`
/// merges a `RpbDelReq`.
pub open spec fn rpb_del_req_merge(m: RpbDelReqView, s: Seq<u8>, ctx: nat) -> Option<RpbDelReqView>
    decreases ctx, s.len(),
{
    if s.len() == 0 {
        Some(m)
    } else {
        match field_parse(s, ctx) {
            Some((f, n)) => if 1 <= n <= s.len() {
                match rpb_del_req_apply(m, f, ctx) {
                    Some(m2) => rpb_del_req_merge(m2, s.skip(n as int), ctx),
                    None => None,
                }
            } else {
                None
            },
            None => None,
        }
    }
}

/// A `RpbDelReq` read from `s`, or `None` where `s` is malformed: its
/// fields merged into an empty message with the full allowance of 100.
pub open spec fn rpb_del_req_decode(s: Seq<u8>) -> Option<RpbDelReqView> {
    rpb_del_req_merge(rpb_del_req_empty(), s, 100)
}

impl RpbDelReq {
    /// A `RpbDelReq` with no field set.
    pub fn empty() -> (r: RpbDelReq)
        ensures
            r@ == rpb_del_req_empty(),
    {
        let r = RpbDelReq {
            bucket: Vec::new(),
            key: Vec::new(),
            rw: None,
            vclock: None,
            r: None,
            w: None,
            pr: None,
            pw: None,
            dw: None,
            timeout: None,
            sloppy_quorum: None,
            n_val: None,
            bucket_type: None,
        };
        r
    }

    /// The bytes of this message, in a new buffer.
    pub fn encode_to_vec(&self) -> (r: Vec<u8>)
        ensures
            r@ == rpb_del_req_bytes(self@),
    {
        let mut buf: Vec<u8> = Vec::new();
        self.encode(&mut buf);
        proof {
            assert(buf@ =~= rpb_del_req_bytes(self@));
        }
        buf
    }

}

impl WireMessage for RpbDelReq {
    open spec fn wire_bytes(&self) -> Seq<u8> {
        rpb_del_req_bytes(self@)
    }

    fn encode(&self, buf: &mut Vec<u8>) {
        let ghost start = buf@;
        put_bytes_field(buf, 1, self.bucket.as_slice());
        let ghost mut acc = bytes_piece(1, self@.bucket);
        proof {
            assert(buf@ == start + acc);
        }
        put_bytes_field(buf, 2, self.key.as_slice());
        proof {
            lemma_concat_assoc(start, acc, bytes_piece(2, self@.key));
            acc = acc + bytes_piece(2, self@.key);
        }
        put_opt_u32(buf, 3, self.rw);
        proof {
            lemma_concat_assoc(start, acc, opt_varint_piece(3, opt_u32_code(self@.rw)));
            acc = acc + opt_varint_piece(3, opt_u32_code(self@.rw));
        }
        put_opt_bytes(buf, 4, &self.vclock);
        proof {
            lemma_concat_assoc(start, acc, opt_bytes_piece(4, self@.vclock));
            acc = acc + opt_bytes_piece(4, self@.vclock);
        }
        put_opt_u32(buf, 5, self.r);
        proof {
            lemma_concat_assoc(start, acc, opt_varint_piece(5, opt_u32_code(self@.r)));
            acc = acc + opt_varint_piece(5, opt_u32_code(self@.r));
        }
        put_opt_u32(buf, 6, self.w);
        proof {
            lemma_concat_assoc(start, acc, opt_varint_piece(6, opt_u32_code(self@.w)));
            acc = acc + opt_varint_piece(6, opt_u32_code(self@.w));
        }
        put_opt_u32(buf, 7, self.pr);
        proof {
            lemma_concat_assoc(start, acc, opt_varint_piece(7, opt_u32_code(self@.pr)));
            acc = acc + opt_varint_piece(7, opt_u32_code(self@.pr));
        }
        put_opt_u32(buf, 8, self.pw);
        proof {
            lemma_concat_assoc(start, acc, opt_varint_piece(8, opt_u32_code(self@.pw)));
            acc = acc + opt_varint_piece(8, opt_u32_code(self@.pw));
        }
        put_opt_u32(buf, 9, self.dw);
        proof {
            lemma_concat_assoc(start, acc, opt_varint_piece(9, opt_u32_code(self@.dw)));
            acc = acc + opt_varint_piece(9, opt_u32_code(self@.dw));
        }
        put_opt_u32(buf, 10, self.timeout);
        proof {
            lemma_concat_assoc(start, acc, opt_varint_piece(10, opt_u32_code(self@.timeout)));
            acc = acc + opt_varint_piece(10, opt_u32_code(self@.timeout));
        }
        put_opt_bool(buf, 11, self.sloppy_quorum);
        proof {
            lemma_concat_assoc(start, acc, opt_varint_piece(11, opt_bool_code(self@.sloppy_quorum)));
            acc = acc + opt_varint_piece(11, opt_bool_code(self@.sloppy_quorum));
        }
        put_opt_u32(buf, 12, self.n_val);
        proof {
            lemma_concat_assoc(start, acc, opt_varint_piece(12, opt_u32_code(self@.n_val)));
            acc = acc + opt_varint_piece(12, opt_u32_code(self@.n_val));
        }
        put_opt_bytes(buf, 13, &self.bucket_type);
        proof {
            lemma_concat_assoc(start, acc, opt_bytes_piece(13, self@.bucket_type));
            acc = acc + opt_bytes_piece(13, self@.bucket_type);
        }
        proof {
            assert(acc == rpb_del_req_bytes(self@));
        }
    }
}

/// A request for the names of all buckets.
#[derive(Clone, Debug)]
pub struct RpbListBucketsReq {
    pub timeout: Option<u32>,
    pub stream: Option<bool>,
    pub bucket_type: Option<Vec<u8>>,
}

/// The value of a `RpbListBucketsReq`.
pub struct RpbListBucketsReqView {
    pub timeout: Option<u32>,
    pub stream: Option<bool>,
    pub bucket_type: Option<Seq<u8>>,
}

impl View for RpbListBucketsReq {
    type V = RpbListBucketsReqView;

    open spec fn view(&self) -> RpbListBucketsReqView {
        RpbListBucketsReqView {
            timeout: self.timeout,
            stream: self.stream,
            bucket_type: opt_bytes_view(self.bucket_type),
        }
    }
}

/// A `RpbListBucketsReq` with no field set.
pub open spec fn rpb_list_buckets_req_empty() -> RpbListBucketsReqView {
    RpbListBucketsReqView {
        timeout: None,
        stream: None,
        bucket_type: None,
    }
}

/// The bytes of a `RpbListBucketsReq`: its fields in the order of their tags.
pub open spec fn rpb_list_buckets_req_bytes(m: RpbListBucketsReqView) -> Seq<u8> {
    opt_varint_piece(1, opt_u32_code(m.timeout))
        + opt_varint_piece(2, opt_bool_code(m.stream))
        + opt_bytes_piece(3, m.bucket_type)
}

/// What one field read from the wire does to a `RpbListBucketsReq`: `None` where
/// the field has a known tag and a payload of another wire type, or a
/// nested message that does not read. Fields of unknown tags are skipped.
/// `ctx` is what is left of the nesting allowance of 100 messages: a
/// nested message, or an unknown field, needs some of it.
pub open spec fn rpb_list_buckets_req_apply(m: RpbListBucketsReqView, f: RawField, ctx: nat) -> Option<RpbListBucketsReqView>
    decreases ctx, 0nat,
{
    if f.tag == 1 {
        match f.data {
            RawData::Varint(v) => Some(RpbListBucketsReqView { timeout: Some(u32_of_code(v)), ..m }),
            _ => None,
        }
    } else if f.tag == 2 {
        match f.data {
            RawData::Varint(v) => Some(RpbListBucketsReqView { stream: Some(v != 0), ..m }),
            _ => None,
        }
    } else if f.tag == 3 {
        match f.data {
            RawData::Bytes(b) => Some(RpbListBucketsReqView { bucket_type: Some(b), ..m }),
            _ => None,
        }
    } else if ctx == 0 {
        None
    } else {
        Some(m)
    }
}

/// Reads the fields of `s` into `m`, one after the other, as `prost`
/// merges a `RpbListBucketsReq`.
pub open spec fn rpb_list_buckets_req_merge(m: RpbListBucketsReqView, s: Seq<u8>, ctx: nat) -> Option<RpbListBucketsReqView>
    decreases ctx, s.len(),
{
    if s.len() == 0 {
        Some(m)
    } else {
        match field_parse(s, ctx) {
            Some((f, n)) => if 1 <= n <= s.len() {
                match rpb_list_buckets_req_apply(m, f, ctx) {
                    Some(m2) => rpb_list_buckets_req_merge(m2, s.skip(n as int), ctx),
                    None => None,
                }
            } else {
                None
            },
            None => None,
        }
    }
}

/// A `RpbListBucketsReq` read from `s`, or `None` where `s` is malformed: its
/// fields merged into an empty message with the full allowance of 100.
pub open spec fn rpb_list_buckets_req_decode(s: Seq<u8>) -> Option<RpbListBucketsReqView> {
    rpb_list_buckets_req_merge(rpb_list_buckets_req_empty(), s, 100)
}

impl RpbListBucketsReq {
    /// A `RpbListBucketsReq` with no field set.
    pub fn empty() -> (r: RpbListBucketsReq)
        ensures
            r@ == rpb_list_buckets_req_empty(),
    {
        let r = RpbListBucketsReq {
            timeout: None,
            stream: None,
            bucket_type: None,
        };
        r
    }

    /// The bytes of this message, in a new buffer.
    pub fn encode_to_vec(&self) -> (r: Vec<u8>)
        ensures
            r@ == rpb_list_buckets_req_bytes(self@),
    {
        let mut buf: Vec<u8> = Vec::new();
        self.encode(&mut buf);
        proof {
            assert(buf@ =~= rpb_list_buckets_req_bytes(self@));
        }
        buf
    }

}

impl WireMessage for RpbListBucketsReq {
    open spec fn wire_bytes(&self) -> Seq<u8> {
        rpb_list_buckets_req_bytes(self@)
    }

    fn encode(&self, buf: &mut Vec<u8>) {
        let ghost start = buf@;
        put_opt_u32(buf, 1, self.timeout);
        let ghost mut acc = opt_varint_piece(1, opt_u32_code(self@.timeout));
        proof {
            assert(buf@ == start + acc);
        }
        put_opt_bool(buf, 2, self.stream);
        proof {
            lemma_concat_assoc(start, acc, opt_varint_piece(2, opt_bool_code(self@.stream)));
            acc = acc + opt_varint_piece(2, opt_bool_code(self@.stream));
        }
        put_opt_bytes(buf, 3, &self.bucket_type);
        proof {
            lemma_concat_assoc(start, acc, opt_bytes_piece(3, self@.bucket_type));
            acc = acc + opt_bytes_piece(3, self@.bucket_type);
        }
        proof {
            assert(acc == rpb_list_buckets_req_bytes(self@));
        }
    }
}

/// A batch of bucket names.
#[derive(Clone, Debug)]
pub struct RpbListBucketsResp {
    pub buckets: Vec<Vec<u8>>,
    pub done: Option<bool>,
}

/// The value of a `RpbListBucketsResp`.
pub struct RpbListBucketsRespView {
    pub buckets: Seq<Seq<u8>>,
    pub done: Option<bool>,
}

impl View for RpbListBucketsResp {
    type V = RpbListBucketsRespView;

    open spec fn view(&self) -> RpbListBucketsRespView {
        RpbListBucketsRespView {
            buckets: bytes_seq_view(self.buckets@),
            done: self.done,
        }
    }
}

/// A `RpbListBucketsResp` with no field set.
pub open spec fn rpb_list_buckets_resp_empty() -> RpbListBucketsRespView {
    RpbListBucketsRespView {
        buckets: Seq::empty(),
        done: None,
    }
}

/// The bytes of a `RpbListBucketsResp`: its fields in the order of their tags.
pub open spec fn rpb_list_buckets_resp_bytes(m: RpbListBucketsRespView) -> Seq<u8> {
    rep_bytes_piece(1, m.buckets)
        + opt_varint_piece(2, opt_bool_code(m.done))
}

/// What one field read from the wire does to a `RpbListBucketsResp`: `None` where
/// the field has a known tag and a payload of another wire type, or a
/// nested message that does not read. Fields of unknown tags are skipped.
/// `ctx` is what is left of the nesting allowance of 100 messages: a
/// nested message, or an unknown field, needs some of it.
pub open spec fn rpb_list_buckets_resp_apply(m: RpbListBucketsRespView, f: RawField, ctx: nat) -> Option<RpbListBucketsRespView>
    decreases ctx, 0nat,
{
    if f.tag == 1 {
        match f.data {
            RawData::Bytes(b) => Some(RpbListBucketsRespView { buckets: m.buckets.push(b), ..m }),
            _ => None,
        }
    } else if f.tag == 2 {
        match f.data {
            RawData::Varint(v) => Some(RpbListBucketsRespView { done: Some(v != 0), ..m }),
            _ => None,
        }
    } else if ctx == 0 {
        None
    } else {
        Some(m)
    }
}

/// Reads the fields of `s` into `m`, one after the other, as `prost`
/// merges a `RpbListBucketsResp`.
pub open spec fn rpb_list_buckets_resp_merge(m: RpbListBucketsRespView, s: Seq<u8>, ctx: nat) -> Option<RpbListBucketsRespView>
    decreases ctx, s.len(),
{
    if s.len() == 0 {
        Some(m)
    } else {
        match field_parse(s, ctx) {
            Some((f, n)) => if 1 <= n <= s.len() {
                match rpb_list_buckets_resp_apply(m, f, ctx) {
                    Some(m2) => rpb_list_buckets_resp_merge(m2, s.skip(n as int), ctx),
                    None => None,
                }
            } else {
                None
            },
            None => None,
        }
    }
}

/// A `RpbListBucketsResp` read from `s`, or `None` where `s` is malformed: its
/// fields merged into an empty message with the full allowance of 100.
pub open spec fn rpb_list_buckets_resp_decode(s: Seq<u8>) -> Option<RpbListBucketsRespView> {
    rpb_list_buckets_resp_merge(rpb_list_buckets_resp_empty(), s, 100)
}

impl RpbListBucketsResp {
    /// A `RpbListBucketsResp` with no field set.
    pub fn empty() -> (r: RpbListBucketsResp)
        ensures
            r@ == rpb_list_buckets_resp_empty(),
    {
        let r = RpbListBucketsResp {
            buckets: Vec::new(),
            done: None,
        };
        proof {
            assert(bytes_seq_view(r.buckets@) =~= Seq::<Seq<u8>>::empty());
        }
        r
    }

    /// Reads the fields of `buf` into this message, as `prost` merges a
    /// `RpbListBucketsResp`.
    pub fn merge_from(&mut self, buf: &[u8], ctx: u32) -> (res: Result<(), DecodeError>)
        ensures
            match res {
                Ok(()) => rpb_list_buckets_resp_merge(old(self)@, buf@, ctx as nat) == Some(final(self)@),
                Err(_) => rpb_list_buckets_resp_merge(old(self)@, buf@, ctx as nat) is None,
            },
        decreases ctx, buf@.len(),
    {
        let mut rest = buf;
        while rest.len() > 0
            invariant
                rpb_list_buckets_resp_merge(old(self)@, buf@, ctx as nat) == rpb_list_buckets_resp_merge(self@, rest@, ctx as nat),
                rest@.len() <= buf@.len(),
            decreases rest@.len(),
        {
            let (f, r2) = match read_field(rest, ctx) {
                Ok(p) => p,
                Err(e) => return Err(e),
            };
            proof {
                lemma_field_parse_len(rest@, ctx as nat);
            }
            match self.apply_field(f, ctx) {
                Ok(()) => {},
                Err(e) => return Err(e),
            }
            rest = r2;
        }
        Ok(())
    }

    /// Reads a `RpbListBucketsResp` from `buf`, with the full allowance of 100.
    pub fn decode(buf: &[u8]) -> (res: Result<RpbListBucketsResp, DecodeError>)
        ensures
            match res {
                Ok(m) => rpb_list_buckets_resp_decode(buf@) == Some(m@),
                Err(_) => rpb_list_buckets_resp_decode(buf@) is None,
            },
    {
        let mut m = RpbListBucketsResp::empty();
        match m.merge_from(buf, 100) {
            Ok(()) => Ok(m),
            Err(e) => Err(e),
        }
    }

    fn apply_field(&mut self, f: Field, ctx: u32) -> (res: Result<(), DecodeError>)
        ensures
            match res {
                Ok(()) => rpb_list_buckets_resp_apply(old(self)@, f@, ctx as nat) == Some(final(self)@),
                Err(_) => rpb_list_buckets_resp_apply(old(self)@, f@, ctx as nat) is None,
            },
        decreases ctx, 0nat,
    {
        let Field { tag, data } = f;
        if tag == 1 {
            match data {
                FieldData::Bytes(b) => {
                    let ghost prev = bytes_seq_view(self.buckets@);
                    let ghost bv = b@;
                    self.buckets.push(b);
                    proof {
                        assert(bytes_seq_view(self.buckets@) =~= prev.push(bv));
                    }
                    Ok(())
                },
                _ => Err(decode_error("invalid wire type")),
            }
        } else if tag == 2 {
            match data {
                FieldData::Varint(v) => {
                    self.done = Some(v != 0);
                    Ok(())
                },
                _ => Err(decode_error("invalid wire type")),
            }
        } else if ctx == 0 {
            Err(decode_error("recursion limit reached"))
        } else {
            Ok(())
        }
    }

}

/// A request for the keys of a bucket.
#[derive(Clone, Debug)]
pub struct RpbListKeysReq {
    pub bucket: Vec<u8>,
    pub timeout: Option<u32>,
    pub bucket_type: Option<Vec<u8>>,
}

/// The value of a `RpbListKeysReq`.
pub struct RpbListKeysReqView {
    pub bucket: Seq<u8>,
    pub timeout: Option<u32>,
    pub bucket_type: Option<Seq<u8>>,
}

impl View for RpbListKeysReq {
    type V = RpbListKeysReqView;

    open spec fn view(&self) -> RpbListKeysReqView {
        RpbListKeysReqView {
            bucket: self.bucket@,
            timeout: self.timeout,
            bucket_type: opt_bytes_view(self.bucket_type),
        }
    }
}

/// A `RpbListKeysReq` with no field set.
pub open spec fn rpb_list_keys_req_empty() -> RpbListKeysReqView {
    RpbListKeysReqView {
        bucket: Seq::empty(),
        timeout: None,
        bucket_type: None,
    }
}

/// The bytes of a `RpbListKeysReq`: its fields in the order of their tags.
pub open spec fn rpb_list_keys_req_bytes(m: RpbListKeysReqView) -> Seq<u8> {
    bytes_piece(1, m.bucket)
        + opt_varint_piece(2, opt_u32_code(m.timeout))
        + opt_bytes_piece(3, m.bucket_type)
}

/// What one field read from the wire does to a `RpbListKeysReq`: `None` where
/// the field has a known tag and a payload of another wire type, or a
/// nested message that does not read. Fields of unknown tags are skipped.
/// `ctx` is what is left of the nesting allowance of 100 messages: a
/// nested message, or an unknown field, needs some of it.
pub open spec fn rpb_list_keys_req_apply(m: RpbListKeysReqView, f: RawField, ctx: nat) -> Option<RpbListKeysReqView>
    decreases ctx, 0nat,
{
    if f.tag == 1 {
        match f.data {
            RawData::Bytes(b) => Some(RpbListKeysReqView { bucket: b, ..m }),
            _ => None,
        }
    } else if f.tag == 2 {
        match f.data {
            RawData::Varint(v) => Some(RpbListKeysReqView { timeout: Some(u32_of_code(v)), ..m }),
            _ => None,
        }
    } else if f.tag == 3 {
        match f.data {
            RawData::Bytes(b) => Some(RpbListKeysReqView { bucket_type: Some(b), ..m }),
            _ => None,
        }
    } else if ctx == 0 {
        None
    } else {
        Some(m)
    }
}

/// Reads the fields of `s` into `m`, one after the other, as `prost`
/// merges a `RpbListKeysReq`.
pub open spec fn rpb_list_keys_req_merge(m: RpbListKeysReqView, s: Seq<u8>, ctx: nat) -> Option<RpbListKeysReqView>
    decreases ctx, s.len(),
{
    if s.len() == 0 {
        Some(m)
    } else {
        match field_parse(s, ctx) {
            Some((f, n)) => if 1 <= n <= s.len() {
                match rpb_list_keys_req_apply(m, f, ctx) {
                    Some(m2) => rpb_list_keys_req_merge(m2, s.skip(n as int), ctx),
                    None => None,
                }
            } else {
                None
            },
            None => None,
        }
    }
}

/// A `RpbListKeysReq` read from `s`, or `None` where `s` is malformed: its
/// fields merged into an empty message with the full allowance of 100.
pub open spec fn rpb_list_keys_req_decode(s: Seq<u8>) -> Option<RpbListKeysReqView> {
    rpb_list_keys_req_merge(rpb_list_keys_req_empty(), s, 100)
}

impl RpbListKeysReq {
    /// A `RpbListKeysReq` with no field set.
    pub fn empty() -> (r: RpbListKeysReq)
        ensures
            r@ == rpb_list_keys_req_empty(),
    {
        let r = RpbListKeysReq {
            bucket: Vec::new(),
            timeout: None,
            bucket_type: None,
        };
        r
    }

    /// The bytes of this message, in a new buffer.
    pub fn encode_to_vec(&self) -> (r: Vec<u8>)
        ensures
            r@ == rpb_list_keys_req_bytes(self@),
    {
        let mut buf: Vec<u8> = Vec::new();
        self.encode(&mut buf);
        proof {
            assert(buf@ =~= rpb_list_keys_req_bytes(self@));
        }
        buf
    }

}

impl WireMessage for RpbListKeysReq {
    open spec fn wire_bytes(&self) -> Seq<u8> {
        rpb_list_keys_req_bytes(self@)
    }

    fn encode(&self, buf: &mut Vec<u8>) {
        let ghost start = buf@;
        put_bytes_field(buf, 1, self.bucket.as_slice());
        let ghost mut acc = bytes_piece(1, self@.bucket);
        proof {
            assert(buf@ == start + acc);
        }
        put_opt_u32(buf, 2, self.timeout);
        proof {
            lemma_concat_assoc(start, acc, opt_varint_piece(2, opt_u32_code(self@.timeout)));
            acc = acc + opt_varint_piece(2, opt_u32_code(self@.timeout));
        }
        put_opt_bytes(buf, 3, &self.bucket_type);
        proof {
            lemma_concat_assoc(start, acc, opt_bytes_piece(3, self@.bucket_type));
            acc = acc + opt_bytes_piece(3, self@.bucket_type);
        }
        proof {
            assert(acc == rpb_list_keys_req_bytes(self@));
        }
    }
}

/// A batch of keys.
#[derive(Clone, Debug)]
pub struct RpbListKeysResp {
    pub keys: Vec<Vec<u8>>,
    pub done: Option<bool>,
}

/// The value of a `RpbListKeysResp`.
pub struct RpbListKeysRespView {
    pub keys: Seq<Seq<u8>>,
    pub done: Option<bool>,
}

impl View for RpbListKeysResp {
    type V = RpbListKeysRespView;

    open spec fn view(&self) -> RpbListKeysRespView {
        RpbListKeysRespView {
            keys: bytes_seq_view(self.keys@),
            done: self.done,
        }
    }
}

/// A `RpbListKeysResp` with no field set.
pub open spec fn rpb_list_keys_resp_empty() -> RpbListKeysRespView {
    RpbListKeysRespView {
        keys: Seq::empty(),
        done: None,
    }
}

/// The bytes of a `RpbListKeysResp`: its fields in the order of their tags.
pub open spec fn rpb_list_keys_resp_bytes(m: RpbListKeysRespView) -> Seq<u8> {
    rep_bytes_piece(1, m.keys)
        + opt_varint_piece(2, opt_bool_code(m.done))
}

/// What one field read from the wire does to a `RpbListKeysResp`: `None` where
/// the field has a known tag and a payload of another wire type, or a
/// nested message that does not read. Fields of unknown tags are skipped.
/// `ctx` is what is left of the nesting allowance of 100 messages: a
/// nested message, or an unknown field, needs some of it.
pub open spec fn rpb_list_keys_resp_apply(m: RpbListKeysRespView, f: RawField, ctx: nat) -> Option<RpbListKeysRespView>
    decreases ctx, 0nat,
{
    if f.tag == 1 {
        match f.data {
            RawData::Bytes(b) => Some(RpbListKeysRespView { keys: m.keys.push(b), ..m }),
            _ => None,
        }
    } else if f.tag == 2 {
        match f.data {
            RawData::Varint(v) => Some(RpbListKeysRespView { done: Some(v != 0), ..m }),
            _ => None,
        }
    } else if ctx == 0 {
        None
    } else {
        Some(m)
    }
}

/// Reads the fields of `s` into `m`, one after the other, as `prost`
/// merges a `RpbListKeysResp`.
pub open spec fn rpb_list_keys_resp_merge(m: RpbListKeysRespView, s: Seq<u8>, ctx: nat) -> Option<RpbListKeysRespView>
    decreases ctx, s.len(),
{
    if s.len() == 0 {
        Some(m)
    } else {
        match field_parse(s, ctx) {
            Some((f, n)) => if 1 <= n <= s.len() {
                match rpb_list_keys_resp_apply(m, f, ctx) {
                    Some(m2) => rpb_list_keys_resp_merge(m2, s.skip(n as int), ctx),
                    None => None,
                }
            } else {
                None
            },
            None => None,
        }
    }
}

/// A `RpbListKeysResp` read from `s`, or `None` where `s` is malformed: its
/// fields merged into an empty message with the full allowance of 100.
pub open spec fn rpb_list_keys_resp_decode(s: Seq<u8>) -> Option<RpbListKeysRespView> {
    rpb_list_keys_resp_merge(rpb_list_keys_resp_empty(), s, 100)
}

impl RpbListKeysResp {
    /// A `RpbListKeysResp` with no field set.
    pub fn empty() -> (r: RpbListKeysResp)
        ensures
            r@ == rpb_list_keys_resp_empty(),
    {
        let r = RpbListKeysResp {
            keys: Vec::new(),
            done: None,
        };
        proof {
            assert(bytes_seq_view(r.keys@) =~= Seq::<Seq<u8>>::empty());
        }
        r
    }

    /// Reads the fields of `buf` into this message, as `prost` merges a
    /// `RpbListKeysResp`.
    pub fn merge_from(&mut self, buf: &[u8], ctx: u32) -> (res: Result<(), DecodeError>)
        ensures
            match res {
                Ok(()) => rpb_list_keys_resp_merge(old(self)@, buf@, ctx as nat) == Some(final(self)@),
                Err(_) => rpb_list_keys_resp_merge(old(self)@, buf@, ctx as nat) is None,
            },
        decreases ctx, buf@.len(),
    {
        let mut rest = buf;
        while rest.len() > 0
            invariant
                rpb_list_keys_resp_merge(old(self)@, buf@, ctx as nat) == rpb_list_keys_resp_merge(self@, rest@, ctx as nat),
                rest@.len() <= buf@.len(),
            decreases rest@.len(),
        {
            let (f, r2) = match read_field(rest, ctx) {
                Ok(p) => p,
                Err(e) => return Err(e),
            };
            proof {
                lemma_field_parse_len(rest@, ctx as nat);
            }
            match self.apply_field(f, ctx) {
                Ok(()) => {},
                Err(e) => return Err(e),
            }
            rest = r2;
        }
        Ok(())
    }

    /// Reads a `RpbListKeysResp` from `buf`, with the full allowance of 100.
    pub fn decode(buf: &[u8]) -> (res: Result<RpbListKeysResp, DecodeError>)
        ensures
            match res {
                Ok(m) => rpb_list_keys_resp_decode(buf@) == Some(m@),
                Err(_) => rpb_list_keys_resp_decode(buf@) is None,
            },
    {
        let mut m = RpbListKeysResp::empty();
        match m.merge_from(buf, 100) {
            Ok(()) => Ok(m),
            Err(e) => Err(e),
        }
    }

    fn apply_field(&mut self, f: Field, ctx: u32) -> (res: Result<(), DecodeError>)
        ensures
            match res {
                Ok(()) => rpb_list_keys_resp_apply(old(self)@, f@, ctx as nat) == Some(final(self)@),
                Err(_) => rpb_list_keys_resp_apply(old(self)@, f@, ctx as nat) is None,
            },
        decreases ctx, 0nat,
    {
        let Field { tag, data } = f;
        if tag == 1 {
            match data {
                FieldData::Bytes(b) => {
                    let ghost prev = bytes_seq_view(self.keys@);
                    let ghost bv = b@;
                    self.keys.push(b);
                    proof {
                        assert(bytes_seq_view(self.keys@) =~= prev.push(bv));
                    }
                    Ok(())
                },
                _ => Err(decode_error("invalid wire type")),
            }
        } else if tag == 2 {
            match data {
                FieldData::Varint(v) => {
                    self.done = Some(v != 0);
                    Ok(())
                },
                _ => Err(decode_error("invalid wire type")),
            }
        } else if ctx == 0 {
            Err(decode_error("recursion limit reached"))
        } else {
            Ok(())
        }
    }

}

/// A MapReduce job.
#[derive(Clone, Debug)]
pub struct RpbMapRedReq {
    pub request: Vec<u8>,
    pub content_type: Vec<u8>,
}

/// The value of a `RpbMapRedReq`.
pub struct RpbMapRedReqView {
    pub request: Seq<u8>,
    pub content_type: Seq<u8>,
}

impl View for RpbMapRedReq {
    type V = RpbMapRedReqView;

    open spec fn view(&self) -> RpbMapRedReqView {
        RpbMapRedReqView {
            request: self.request@,
            content_type: self.content_type@,
        }
    }
}

/// A `RpbMapRedReq` with no field set.
pub open spec fn rpb_map_red_req_empty() -> RpbMapRedReqView {
    RpbMapRedReqView {
        request: Seq::empty(),
        content_type: Seq::empty(),
    }
}

/// The bytes of a `RpbMapRedReq`: its fields in the order of their tags.
pub open spec fn rpb_map_red_req_bytes(m: RpbMapRedReqView) -> Seq<u8> {
    bytes_piece(1, m.request)
        + bytes_piece(2, m.content_type)
}

/// What one field read from the wire does to a `RpbMapRedReq`: `None` where
/// the field has a known tag and a payload of another wire type, or a
/// nested message that does not read. Fields of unknown tags are skipped.
/// `ctx` is what is left of the nesting allowance of 100 messages: a
/// nested message, or an unknown field, needs some of it.
pub open spec fn rpb_map_red_req_apply(m: RpbMapRedReqView, f: RawField, ctx: nat) -> Option<RpbMapRedReqView>
    decreases ctx, 0nat,
{
    if f.tag == 1 {
        match f.data {
            RawData::Bytes(b) => Some(RpbMapRedReqView { request: b, ..m }),
            _ => None,
        }
    } else if f.tag == 2 {
        match f.data {
            RawData::Bytes(b) => Some(RpbMapRedReqView { content_type: b, ..m }),
            _ => None,
        }
    } else if ctx == 0 {
        None
    } else {
        Some(m)
    }
}

/// Reads the fields of `s` into `m`, one after the other, as `prost`
/// merges a `RpbMapRedReq`.
pub open spec fn rpb_map_red_req_merge(m: RpbMapRedReqView, s: Seq<u8>, ctx: nat) -> Option<RpbMapRedReqView>
    decreases ctx, s.len(),
{
    if s.len() == 0 {
        Some(m)
    } else {
        match field_parse(s, ctx) {
            Some((f, n)) => if 1 <= n <= s.len() {
                match rpb_map_red_req_apply(m, f, ctx) {
                    Some(m2) => rpb_map_red_req_merge(m2, s.skip(n as int), ctx),
                    None => None,
                }
            } else {
                None
            },
            None => None,
        }
    }
}

/// A `RpbMapRedReq` read from `s`, or `None` where `s` is malformed: its
/// fields merged into an empty message with the full allowance of 100.
pub open spec fn rpb_map_red_req_decode(s: Seq<u8>) -> Option<RpbMapRedReqView> {
    rpb_map_red_req_merge(rpb_map_red_req_empty(), s, 100)
}

impl RpbMapRedReq {
    /// A `RpbMapRedReq` with no field set.
    pub fn empty() -> (r: RpbMapRedReq)
        ensures
            r@ == rpb_map_red_req_empty(),
    {
        let r = RpbMapRedReq {
            request: Vec::new(),
            content_type: Vec::new(),
        };
        r
    }

    /// The bytes of this message, in a new buffer.
    pub fn encode_to_vec(&self) -> (r: Vec<u8>)
        ensures
            r@ == rpb_map_red_req_bytes(self@),
    {
        let mut buf: Vec<u8> = Vec::new();
        self.encode(&mut buf);
        proof {
            assert(buf@ =~= rpb_map_red_req_bytes(self@));
        }
        buf
    }

}

impl WireMessage for RpbMapRedReq {
    open spec fn wire_bytes(&self) -> Seq<u8> {
        rpb_map_red_req_bytes(self@)
    }

    fn encode(&self, buf: &mut Vec<u8>) {
        let ghost start = buf@;
        put_bytes_field(buf, 1, self.request.as_slice());
        let ghost mut acc = bytes_piece(1, self@.request);
        proof {
            assert(buf@ == start + acc);
        }
        put_bytes_field(buf, 2, self.content_type.as_slice());
        proof {
            lemma_concat_assoc(start, acc, bytes_piece(2, self@.content_type));
            acc = acc + bytes_piece(2, self@.content_type);
        }
        proof {
            assert(acc == rpb_map_red_req_bytes(self@));
        }
    }
}

/// A part of the result of a MapReduce job.
#[derive(Clone, Debug)]
pub struct RpbMapRedResp {
    pub phase: Option<u32>,
    pub response: Option<Vec<u8>>,
    pub done: Option<bool>,
}

/// The value of a `RpbMapRedResp`.
pub struct RpbMapRedRespView {
    pub phase: Option<u32>,
    pub response: Option<Seq<u8>>,
    pub done: Option<bool>,
}

impl View for RpbMapRedResp {
    type V = RpbMapRedRespView;

    open spec fn view(&self) -> RpbMapRedRespView {
        RpbMapRedRespView {
            phase: self.phase,
            response: opt_bytes_view(self.response),
            done: self.done,
        }
    }
}

/// A `RpbMapRedResp` with no field set.
pub open spec fn rpb_map_red_resp_empty() -> RpbMapRedRespView {
    RpbMapRedRespView {
        phase: None,
        response: None,
        done: None,
    }
}

/// The bytes of a `RpbMapRedResp`: its fields in the order of their tags.
pub open spec fn rpb_map_red_resp_bytes(m: RpbMapRedRespView) -> Seq<u8> {
    opt_varint_piece(1, opt_u32_code(m.phase))
        + opt_bytes_piece(2, m.response)
        + opt_varint_piece(3, opt_bool_code(m.done))
}

/// What one field read from the wire does to a `RpbMapRedResp`: `None` where
/// the field has a known tag and a payload of another wire type, or a
/// nested message that does not read. Fields of unknown tags are skipped.
/// `ctx` is what is left of the nesting allowance of 100 messages: a
/// nested message, or an unknown field, needs some of it.
pub open spec fn rpb_map_red_resp_apply(m: RpbMapRedRespView, f: RawField, ctx: nat) -> Option<RpbMapRedRespView>
    decreases ctx, 0nat,
{
    if f.tag == 1 {
        match f.data {
            RawData::Varint(v) => Some(RpbMapRedRespView { phase: Some(u32_of_code(v)), ..m }),
            _ => None,
        }
    } else if f.tag == 2 {
        match f.data {
            RawData::Bytes(b) => Some(RpbMapRedRespView { response: Some(b), ..m }),
            _ => None,
        }
    } else if f.tag == 3 {
        match f.data {
            RawData::Varint(v) => Some(RpbMapRedRespView { done: Some(v != 0), ..m }),
            _ => None,
        }
    } else if ctx == 0 {
        None
    } else {
        Some(m)
    }
}

/// Reads the fields of `s` into `m`, one after the other, as `prost`
/// merges a `RpbMapRedResp`.
pub open spec fn rpb_map_red_resp_merge(m: RpbMapRedRespView, s: Seq<u8>, ctx: nat) -> Option<RpbMapRedRespView>
    decreases ctx, s.len(),
{
    if s.len() == 0 {
        Some(m)
    } else {
        match field_parse(s, ctx) {
            Some((f, n)) => if 1 <= n <= s.len() {
                match rpb_map_red_resp_apply(m, f, ctx) {
                    Some(m2) => rpb_map_red_resp_merge(m2, s.skip(n as int), ctx),
                    None => None,
                }
            } else {
                None
            },
            None => None,
        }
    }
}

/// A `RpbMapRedResp` read from `s`, or `None` where `s` is malformed: its
/// fields merged into an empty message with the full allowance of 100.
pub open spec fn rpb_map_red_resp_decode(s: Seq<u8>) -> Option<RpbMapRedRespView> {
    rpb_map_red_resp_merge(rpb_map_red_resp_empty(), s, 100)
}

impl RpbMapRedResp {
    /// A `RpbMapRedResp` with no field set.
    pub fn empty() -> (r: RpbMapRedResp)
        ensures
            r@ == rpb_map_red_resp_empty(),
    {
        let r = RpbMapRedResp {
            phase: None,
            response: None,
            done: None,
        };
        r
    }

    /// Reads the fields of `buf` into this message, as `prost` merges a
    /// `RpbMapRedResp`.
    pub fn merge_from(&mut self, buf: &[u8], ctx: u32) -> (res: Result<(), DecodeError>)
        ensures
            match res {
                Ok(()) => rpb_map_red_resp_merge(old(self)@, buf@, ctx as nat) == Some(final(self)@),
                Err(_) => rpb_map_red_resp_merge(old(self)@, buf@, ctx as nat) is None,
            },
        decreases ctx, buf@.len(),
    {
        let mut rest = buf;
        while rest.len() > 0
            invariant
                rpb_map_red_resp_merge(old(self)@, buf@, ctx as nat) == rpb_map_red_resp_merge(self@, rest@, ctx as nat),
                rest@.len() <= buf@.len(),
            decreases rest@.len(),
        {
            let (f, r2) = match read_field(rest, ctx) {
                Ok(p) => p,
                Err(e) => return Err(e),
            };
            proof {
                lemma_field_parse_len(rest@, ctx as nat);
            }
            match self.apply_field(f, ctx) {
                Ok(()) => {},
                Err(e) => return Err(e),
            }
            rest = r2;
        }
        Ok(())
    }

    /// Reads a `RpbMapRedResp` from `buf`, with the full allowance of 100.
    pub fn decode(buf: &[u8]) -> (res: Result<RpbMapRedResp, DecodeError>)
        ensures
            match res {
                Ok(m) => rpb_map_red_resp_decode(buf@) == Some(m@),
                Err(_) => rpb_map_red_resp_decode(buf@) is None,
            },
    {
        let mut m = RpbMapRedResp::empty();
        match m.merge_from(buf, 100) {
            Ok(()) => Ok(m),
            Err(e) => Err(e),
        }
    }

    fn apply_field(&mut self, f: Field, ctx: u32) -> (res: Result<(), DecodeError>)
        ensures
            match res {
                Ok(()) => rpb_map_red_resp_apply(old(self)@, f@, ctx as nat) == Some(final(self)@),
                Err(_) => rpb_map_red_resp_apply(old(self)@, f@, ctx as nat) is None,
            },
        decreases ctx, 0nat,
    {
        let Field { tag, data } = f;
        if tag == 1 {
            match data {
                FieldData::Varint(v) => {
                    self.phase = Some(u32_from_code(v));
                    Ok(())
                },
                _ => Err(decode_error("invalid wire type")),
            }
        } else if tag == 2 {
            match data {
                FieldData::Bytes(b) => {
                    self.response = Some(b);
                    Ok(())
                },
                _ => Err(decode_error("invalid wire type")),
            }
        } else if tag == 3 {
            match data {
                FieldData::Varint(v) => {
                    self.done = Some(v != 0);
                    Ok(())
                },
                _ => Err(decode_error("invalid wire type")),
            }
        } else if ctx == 0 {
            Err(decode_error("recursion limit reached"))
        } else {
            Ok(())
        }
    }

}

/// A secondary index query.
#[derive(Clone, Debug)]
pub struct RpbIndexReq {
    pub bucket: Vec<u8>,
    pub index: Vec<u8>,
    pub qtype: i32,
    pub key: Option<Vec<u8>>,
    pub range_min: Option<Vec<u8>>,
    pub range_max: Option<Vec<u8>>,
    pub return_terms: Option<bool>,
    pub stream: Option<bool>,
    pub max_results: Option<u32>,
    pub continuation: Option<Vec<u8>>,
    pub timeout: Option<u32>,
    pub bucket_type: Option<Vec<u8>>,
    pub term_regex: Option<Vec<u8>>,
    pub pagination_sort: Option<bool>,
    pub cover_context: Option<Vec<u8>>,
    pub return_body: Option<bool>,
}

/// The value of a `RpbIndexReq`.
pub struct RpbIndexReqView {
    pub bucket: Seq<u8>,
    pub index: Seq<u8>,
    pub qtype: i32,
    pub key: Option<Seq<u8>>,
    pub range_min: Option<Seq<u8>>,
    pub range_max: Option<Seq<u8>>,
    pub return_terms: Option<bool>,
    pub stream: Option<bool>,
    pub max_results: Option<u32>,
    pub continuation: Option<Seq<u8>>,
    pub timeout: Option<u32>,
    pub bucket_type: Option<Seq<u8>>,
    pub term_regex: Option<Seq<u8>>,
    pub pagination_sort: Option<bool>,
    pub cover_context: Option<Seq<u8>>,
    pub return_body: Option<bool>,
}

impl View for RpbIndexReq {
    type V = RpbIndexReqView;

    open spec fn view(&self) -> RpbIndexReqView {
        RpbIndexReqView {
            bucket: self.bucket@,
            index: self.index@,
            qtype: self.qtype,
            key: opt_bytes_view(self.key),
            range_min: opt_bytes_view(self.range_min),
            range_max: opt_bytes_view(self.range_max),
            return_terms: self.return_terms,
            stream: self.stream,
            max_results: self.max_results,
            continuation: opt_bytes_view(self.continuation),
            timeout: self.timeout,
            bucket_type: opt_bytes_view(self.bucket_type),
            term_regex: opt_bytes_view(self.term_regex),
            pagination_sort: self.pagination_sort,
            cover_context: opt_bytes_view(self.cover_context),
            return_body: self.return_body,
        }
    }
}

/// A `RpbIndexReq` with no field set.
pub open spec fn rpb_index_req_empty() -> RpbIndexReqView {
    RpbIndexReqView {
        bucket: Seq::empty(),
        index: Seq::empty(),
        qtype: 0,
        key: None,
        range_min: None,
        range_max: None,
        return_terms: None,
        stream: None,
        max_results: None,
        continuation: None,
        timeout: None,
        bucket_type: None,
        term_regex: None,
        pagination_sort: None,
        cover_context: None,
        return_body: None,
    }
}

/// The bytes of a `RpbIndexReq`: its fields in the order of their tags.
pub open spec fn rpb_index_req_bytes(m: RpbIndexReqView) -> Seq<u8> {
    bytes_piece(1, m.bucket)
        + bytes_piece(2, m.index)
        + varint_piece(3, i32_code(m.qtype))
        + opt_bytes_piece(4, m.key)
        + opt_bytes_piece(5, m.range_min)
        + opt_bytes_piece(6, m.range_max)
        + opt_varint_piece(7, opt_bool_code(m.return_terms))
        + opt_varint_piece(8, opt_bool_code(m.stream))
        + opt_varint_piece(9, opt_u32_code(m.max_results))
        + opt_bytes_piece(10, m.continuation)
        + opt_varint_piece(11, opt_u32_code(m.timeout))
        + opt_bytes_piece(12, m.bucket_type)
        + opt_bytes_piece(13, m.term_regex)
        + opt_varint_piece(14, opt_bool_code(m.pagination_sort))
        + opt_bytes_piece(15, m.cover_context)
        + opt_varint_piece(16, opt_bool_code(m.return_body))
}

/// What one field read from the wire does to a `RpbIndexReq`: `None` where
/// the field has a known tag and a payload of another wire type, or a
/// nested message that does not read. Fields of unknown tags are skipped.
/// `ctx` is what is left of the nesting allowance of 100 messages: a
/// nested message, or an unknown field, needs some of it.
pub open spec fn rpb_index_req_apply(m: RpbIndexReqView, f: RawField, ctx: nat) -> Option<RpbIndexReqView>
    decreases ctx, 0nat,
{
    if f.tag == 1 {
        match f.data {
            RawData::Bytes(b) => Some(RpbIndexReqView { bucket: b, ..m }),
            _ => None,
        }
    } else if f.tag == 2 {
        match f.data {
            RawData::Bytes(b) => Some(RpbIndexReqView { index: b, ..m }),
            _ => None,
        }
    } else if f.tag == 3 {
        match f.data {
            RawData::Varint(v) => Some(RpbIndexReqView { qtype: i32_of_code(v), ..m }),
            _ => None,
        }
    } else if f.tag == 4 {
        match f.data {
            RawData::Bytes(b) => Some(RpbIndexReqView { key: Some(b), ..m }),
            _ => None,
        }
    } else if f.tag == 5 {
        match f.data {
            RawData::Bytes(b) => Some(RpbIndexReqView { range_min: Some(b), ..m }),
            _ => None,
        }
    } else if f.tag == 6 {
        match f.data {
            RawData::Bytes(b) => Some(RpbIndexReqView { range_max: Some(b), ..m }),
            _ => None,
        }
    } else if f.tag == 7 {
        match f.data {
            RawData::Varint(v) => Some(RpbIndexReqView { return_terms: Some(v != 0), ..m }),
            _ => None,
        }
    } else if f.tag == 8 {
        match f.data {
            RawData::Varint(v) => Some(RpbIndexReqView { stream: Some(v != 0), ..m }),
            _ => None,
        }
    } else if f.tag == 9 {
        match f.data {
            RawData::Varint(v) => Some(RpbIndexReqView { max_results: Some(u32_of_code(v)), ..m }),
            _ => None,
        }
    } else if f.tag == 10 {
        match f.data {
            RawData::Bytes(b) => Some(RpbIndexReqView { continuation: Some(b), ..m }),
            _ => None,
        }
    } else if f.tag == 11 {
        match f.data {
            RawData::Varint(v) => Some(RpbIndexReqView { timeout: Some(u32_of_code(v)), ..m }),
            _ => None,
        }
    } else if f.tag == 12 {
        match f.data {
            RawData::Bytes(b) => Some(RpbIndexReqView { bucket_type: Some(b), ..m }),
            _ => None,
        }
    } else if f.tag == 13 {
        match f.data {
            RawData::Bytes(b) => Some(RpbIndexReqView { term_regex: Some(b), ..m }),
            _ => None,
        }
    } else if f.tag == 14 {
        match f.data {
            RawData::Varint(v) => Some(RpbIndexReqView { pagination_sort: Some(v != 0), ..m }),
            _ => None,
        }
    } else if f.tag == 15 {
        match f.data {
            RawData::Bytes(b) => Some(RpbIndexReqView { cover_context: Some(b), ..m }),
            _ => None,
        }
    } else if f.tag == 16 {
        match f.data {
            RawData::Varint(v) => Some(RpbIndexReqView { return_body: Some(v != 0), ..m }),
            _ => None,
        }
    } else if ctx == 0 {
        None
    } else {
        Some(m)
    }
}

/// Reads the fields of `s` into `m`, one after the other, as `prost`
/// merges a `RpbIndexReq`.
pub open spec fn rpb_index_req_merge(m: RpbIndexReqView, s: Seq<u8>, ctx: nat) -> Option<RpbIndexReqView>
    decreases ctx, s.len(),
{
    if s.len() == 0 {
        Some(m)
    } else {
        match field_parse(s, ctx) {
            Some((f, n)) => if 1 <= n <= s.len() {
                match rpb_index_req_apply(m, f, ctx) {
                    Some(m2) => rpb_index_req_merge(m2, s.skip(n as int), ctx),
                    None => None,
                }
            } else {
                None
            },
            None => None,
        }
    }
}

/// A `RpbIndexReq` read from `s`, or `None` where `s` is malformed: its
/// fields merged into an empty message with the full allowance of 100.
pub open spec fn rpb_index_req_decode(s: Seq<u8>) -> Option<RpbIndexReqView> {
    rpb_index_req_merge(rpb_index_req_empty(), s, 100)
}

impl RpbIndexReq {
    /// A `RpbIndexReq` with no field set.
    pub fn empty() -> (r: RpbIndexReq)
        ensures
            r@ == rpb_index_req_empty(),
    {
        let r = RpbIndexReq {
            bucket: Vec::new(),
            index: Vec::new(),
            qtype: 0,
            key: None,
            range_min: None,
            range_max: None,
            return_terms: None,
            stream: None,
            max_results: None,
            continuation: None,
            timeout: None,
            bucket_type: None,
            term_regex: None,
            pagination_sort: None,
            cover_context: None,
            return_body: None,
        };
        r
    }

    /// The bytes of this message, in a new buffer.
    pub fn encode_to_vec(&self) -> (r: Vec<u8>)
        ensures
            r@ == rpb_index_req_bytes(self@),
    {
        let mut buf: Vec<u8> = Vec::new();
        self.encode(&mut buf);
        proof {
            assert(buf@ =~= rpb_index_req_bytes(self@));
        }
        buf
    }

}

impl WireMessage for RpbIndexReq {
    open spec fn wire_bytes(&self) -> Seq<u8> {
        rpb_index_req_bytes(self@)
    }

    fn encode(&self, buf: &mut Vec<u8>) {
        let ghost start = buf@;
        put_bytes_field(buf, 1, self.bucket.as_slice());
        let ghost mut acc = bytes_piece(1, self@.bucket);
        proof {
            assert(buf@ == start + acc);
        }
        put_bytes_field(buf, 2, self.index.as_slice());
        proof {
            lemma_concat_assoc(start, acc, bytes_piece(2, self@.index));
            acc = acc + bytes_piece(2, self@.index);
        }
        put_varint_field(buf, 3, i32_to_code(self.qtype));
        proof {
            lemma_concat_assoc(start, acc, varint_piece(3, i32_code(self@.qtype)));
            acc = acc + varint_piece(3, i32_code(self@.qtype));
        }
        put_opt_bytes(buf, 4, &self.key);
        proof {
            lemma_concat_assoc(start, acc, opt_bytes_piece(4, self@.key));
            acc = acc + opt_bytes_piece(4, self@.key);
        }
        put_opt_bytes(buf, 5, &self.range_min);
        proof {
            lemma_concat_assoc(start, acc, opt_bytes_piece(5, self@.range_min));
            acc = acc + opt_bytes_piece(5, self@.range_min);
        }
        put_opt_bytes(buf, 6, &self.range_max);
        proof {
            lemma_concat_assoc(start, acc, opt_bytes_piece(6, self@.range_max));
            acc = acc + opt_bytes_piece(6, self@.range_max);
        }
        put_opt_bool(buf, 7, self.return_terms);
        proof {
            lemma_concat_assoc(start, acc, opt_varint_piece(7, opt_bool_code(self@.return_terms)));
            acc = acc + opt_varint_piece(7, opt_bool_code(self@.return_terms));
        }
        put_opt_bool(buf, 8, self.stream);
        proof {
            lemma_concat_assoc(start, acc, opt_varint_piece(8, opt_bool_code(self@.stream)));
            acc = acc + opt_varint_piece(8, opt_bool_code(self@.stream));
        }
        put_opt_u32(buf, 9, self.max_results);
        proof {
            lemma_concat_assoc(start, acc, opt_varint_piece(9, opt_u32_code(self@.max_results)));
            acc = acc + opt_varint_piece(9, opt_u32_code(self@.max_results));
        }
        put_opt_bytes(buf, 10, &self.continuation);
        proof {
            lemma_concat_assoc(start, acc, opt_bytes_piece(10, self@.continuation));
            acc = acc + opt_bytes_piece(10, self@.continuation);
        }
        put_opt_u32(buf, 11, self.timeout);
        proof {
            lemma_concat_assoc(start, acc, opt_varint_piece(11, opt_u32_code(self@.timeout)));
            acc = acc + opt_varint_piece(11, opt_u32_code(self@.timeout));
        }
        put_opt_bytes(buf, 12, &self.bucket_type);
        proof {
            lemma_concat_assoc(start, acc, opt_bytes_piece(12, self@.bucket_type));
            acc = acc + opt_bytes_piece(12, self@.bucket_type);
        }
        put_opt_bytes(buf, 13, &self.term_regex);
        proof {
            lemma_concat_assoc(start, acc, opt_bytes_piece(13, self@.term_regex));
            acc = acc + opt_bytes_piece(13, self@.term_regex);
        }
        put_opt_bool(buf, 14, self.pagination_sort);
        proof {
            lemma_concat_assoc(start, acc, opt_varint_piece(14, opt_bool_code(self@.pagination_sort)));
            acc = acc + opt_varint_piece(14, opt_bool_code(self@.pagination_sort));
        }
        put_opt_bytes(buf, 15, &self.cover_context);
        proof {
            lemma_concat_assoc(start, acc, opt_bytes_piece(15, self@.cover_context));
            acc = acc + opt_bytes_piece(15, self@.cover_context);
        }
        put_opt_bool(buf, 16, self.return_body);
        proof {
            lemma_concat_assoc(start, acc, opt_varint_piece(16, opt_bool_code(self@.return_body)));
            acc = acc + opt_varint_piece(16, opt_bool_code(self@.return_body));
        }
        proof {
            assert(acc == rpb_index_req_bytes(self@));
        }
    }
}

/// The answer to a secondary index query.
#[derive(Clone, Debug)]
pub struct RpbIndexResp {
    pub keys: Vec<Vec<u8>>,
    pub results: Vec<RpbPair>,
    pub continuation: Option<Vec<u8>>,
    pub done: Option<bool>,
}

/// The value of a `RpbIndexResp`.
pub struct RpbIndexRespView {
    pub keys: Seq<Seq<u8>>,
    pub results: Seq<RpbPairView>,
    pub continuation: Option<Seq<u8>>,
    pub done: Option<bool>,
}

impl View for RpbIndexResp {
    type V = RpbIndexRespView;

    open spec fn view(&self) -> RpbIndexRespView {
        RpbIndexRespView {
            keys: bytes_seq_view(self.keys@),
            results: self.results@.map_values(|m: RpbPair| m@),
            continuation: opt_bytes_view(self.continuation),
            done: self.done,
        }
    }
}

/// A `RpbIndexResp` with no field set.
pub open spec fn rpb_index_resp_empty() -> RpbIndexRespView {
    RpbIndexRespView {
        keys: Seq::empty(),
        results: Seq::empty(),
        continuation: None,
        done: None,
    }
}

/// The bytes of a `RpbIndexResp`: its fields in the order of their tags.
pub open spec fn rpb_index_resp_bytes(m: RpbIndexRespView) -> Seq<u8> {
    rep_bytes_piece(1, m.keys)
        + rep_bytes_piece(2, m.results.map_values(|s: RpbPairView| rpb_pair_bytes(s)))
        + opt_bytes_piece(3, m.continuation)
        + opt_varint_piece(4, opt_bool_code(m.done))
}

/// What one field read from the wire does to a `RpbIndexResp`: `None` where
/// the field has a known tag and a payload of another wire type, or a
/// nested message that does not read. Fields of unknown tags are skipped.
/// `ctx` is what is left of the nesting allowance of 100 messages: a
/// nested message, or an unknown field, needs some of it.
pub open spec fn rpb_index_resp_apply(m: RpbIndexRespView, f: RawField, ctx: nat) -> Option<RpbIndexRespView>
    decreases ctx, 0nat,
{
    if f.tag == 1 {
        match f.data {
            RawData::Bytes(b) => Some(RpbIndexRespView { keys: m.keys.push(b), ..m }),
            _ => None,
        }
    } else if f.tag == 2 {
        match f.data {
            RawData::Bytes(b) => if ctx == 0 {
                None
            } else {
                match rpb_pair_merge(rpb_pair_empty(), b, (ctx - 1) as nat) {
                    Some(s) => Some(RpbIndexRespView { results: m.results.push(s), ..m }),
                    None => None,
                }
            },
            _ => None,
        }
    } else if f.tag == 3 {
        match f.data {
            RawData::Bytes(b) => Some(RpbIndexRespView { continuation: Some(b), ..m }),
            _ => None,
        }
    } else if f.tag == 4 {
        match f.data {
            RawData::Varint(v) => Some(RpbIndexRespView { done: Some(v != 0), ..m }),
            _ => None,
        }
    } else if ctx == 0 {
        None
    } else {
        Some(m)
    }
}

/// Reads the fields of `s` into `m`, one after the other, as `prost`
/// merges a `RpbIndexResp`.
pub open spec fn rpb_index_resp_merge(m: RpbIndexRespView, s: Seq<u8>, ctx: nat) -> Option<RpbIndexRespView>
    decreases ctx, s.len(),
{
    if s.len() == 0 {
        Some(m)
    } else {
        match field_parse(s, ctx) {
            Some((f, n)) => if 1 <= n <= s.len() {
                match rpb_index_resp_apply(m, f, ctx) {
                    Some(m2) => rpb_index_resp_merge(m2, s.skip(n as int), ctx),
                    None => None,
                }
            } else {
                None
            },
            None => None,
        }
    }
}

/// A `RpbIndexResp` read from `s`, or `None` where `s` is malformed: its
/// fields merged into an empty message with the full allowance of 100.
pub open spec fn rpb_index_resp_decode(s: Seq<u8>) -> Option<RpbIndexRespView> {
    rpb_index_resp_merge(rpb_index_resp_empty(), s, 100)
}

impl RpbIndexResp {
    /// A `RpbIndexResp` with no field set.
    pub fn empty() -> (r: RpbIndexResp)
        ensures
            r@ == rpb_index_resp_empty(),
    {
        let r = RpbIndexResp {
            keys: Vec::new(),
            results: Vec::new(),
            continuation: None,
            done: None,
        };
        proof {
            assert(bytes_seq_view(r.keys@) =~= Seq::<Seq<u8>>::empty());
            assert(r.results@.map_values(|m: RpbPair| m@) =~= Seq::<RpbPairView>::empty());
        }
        r
    }

    /// Reads the fields of `buf` into this message, as `prost` merges a
    /// `RpbIndexResp`.
    pub fn merge_from(&mut self, buf: &[u8], ctx: u32) -> (res: Result<(), DecodeError>)
        ensures
            match res {
                Ok(()) => rpb_index_resp_merge(old(self)@, buf@, ctx as nat) == Some(final(self)@),
                Err(_) => rpb_index_resp_merge(old(self)@, buf@, ctx as nat) is None,
            },
        decreases ctx, buf@.len(),
    {
        let mut rest = buf;
        while rest.len() > 0
            invariant
                rpb_index_resp_merge(old(self)@, buf@, ctx as nat) == rpb_index_resp_merge(self@, rest@, ctx as nat),
                rest@.len() <= buf@.len(),
            decreases rest@.len(),
        {
            let (f, r2) = match read_field(rest, ctx) {
                Ok(p) => p,
                Err(e) => return Err(e),
            };
            proof {
                lemma_field_parse_len(rest@, ctx as nat);
            }
            match self.apply_field(f, ctx) {
                Ok(()) => {},
                Err(e) => return Err(e),
            }
            rest = r2;
        }
        Ok(())
    }

    /// Reads a `RpbIndexResp` from `buf`, with the full allowance of 100.
    pub fn decode(buf: &[u8]) -> (res: Result<RpbIndexResp, DecodeError>)
        ensures
            match res {
                Ok(m) => rpb_index_resp_decode(buf@) == Some(m@),
                Err(_) => rpb_index_resp_decode(buf@) is None,
            },
    {
        let mut m = RpbIndexResp::empty();
        match m.merge_from(buf, 100) {
            Ok(()) => Ok(m),
            Err(e) => Err(e),
        }
    }

    fn apply_field(&mut self, f: Field, ctx: u32) -> (res: Result<(), DecodeError>)
        ensures
            match res {
                Ok(()) => rpb_index_resp_apply(old(self)@, f@, ctx as nat) == Some(final(self)@),
                Err(_) => rpb_index_resp_apply(old(self)@, f@, ctx as nat) is None,
            },
        decreases ctx, 0nat,
    {
        let Field { tag, data } = f;
        if tag == 1 {
            match data {
                FieldData::Bytes(b) => {
                    let ghost prev = bytes_seq_view(self.keys@);
                    let ghost bv = b@;
                    self.keys.push(b);
                    proof {
                        assert(bytes_seq_view(self.keys@) =~= prev.push(bv));
                    }
                    Ok(())
                },
                _ => Err(decode_error("invalid wire type")),
            }
        } else if tag == 2 {
            match data {
                FieldData::Bytes(b) => {
                    if ctx == 0 {
                        return Err(decode_error("recursion limit reached"));
                    }
                    let mut s = RpbPair::empty();
                    match s.merge_from(b.as_slice(), ctx - 1) {
                        Ok(()) => {
                            let ghost prev = self.results@.map_values(|m: RpbPair| m@);
                            let ghost sv = s@;
                            self.results.push(s);
                            proof {
                                assert(self.results@.map_values(|m: RpbPair| m@) =~= prev.push(sv));
                            }
                            Ok(())
                        },
                        Err(e) => Err(e),
                    }
                },
                _ => Err(decode_error("invalid wire type")),
            }
        } else if tag == 3 {
            match data {
                FieldData::Bytes(b) => {
                    self.continuation = Some(b);
                    Ok(())
                },
                _ => Err(decode_error("invalid wire type")),
            }
        } else if tag == 4 {
            match data {
                FieldData::Varint(v) => {
                    self.done = Some(v != 0);
                    Ok(())
                },
                _ => Err(decode_error("invalid wire type")),
            }
        } else if ctx == 0 {
            Err(decode_error("recursion limit reached"))
        } else {
            Ok(())
        }
    }

}

/// A request for the preference list of a key.
#[derive(Clone, Debug)]
pub struct RpbGetBucketKeyPreflistReq {
    pub bucket: Vec<u8>,
    pub key: Vec<u8>,
    pub bucket_type: Option<Vec<u8>>,
}

/// The value of a `RpbGetBucketKeyPreflistReq`.
pub struct RpbGetBucketKeyPreflistReqView {
    pub bucket: Seq<u8>,
    pub key: Seq<u8>,
    pub bucket_type: Option<Seq<u8>>,
}

impl View for RpbGetBucketKeyPreflistReq {
    type V = RpbGetBucketKeyPreflistReqView;

    open spec fn view(&self) -> RpbGetBucketKeyPreflistReqView {
        RpbGetBucketKeyPreflistReqView {
            bucket: self.bucket@,
            key: self.key@,
            bucket_type: opt_bytes_view(self.bucket_type),
        }
    }
}

/// A `RpbGetBucketKeyPreflistReq` with no field set.
pub open spec fn rpb_get_bucket_key_preflist_req_empty() -> RpbGetBucketKeyPreflistReqView {
    RpbGetBucketKeyPreflistReqView {
        bucket: Seq::empty(),
        key: Seq::empty(),
        bucket_type: None,
    }
}

/// The bytes of a `RpbGetBucketKeyPreflistReq`: its fields in the order of their tags.
pub open spec fn rpb_get_bucket_key_preflist_req_bytes(m: RpbGetBucketKeyPreflistReqView) -> Seq<u8> {
    bytes_piece(1, m.bucket)
        + bytes_piece(2, m.key)
        + opt_bytes_piece(3, m.bucket_type)
}

/// What one field read from the wire does to a `RpbGetBucketKeyPreflistReq`: `None` where
/// the field has a known tag and a payload of another wire type, or a
/// nested message that does not read. Fields of unknown tags are skipped.
/// `ctx` is what is left of the nesting allowance of 100 messages: a
/// nested message, or an unknown field, needs some of it.
pub open spec fn rpb_get_bucket_key_preflist_req_apply(m: RpbGetBucketKeyPreflistReqView, f: RawField, ctx: nat) -> Option<RpbGetBucketKeyPreflistReqView>
    decreases ctx, 0nat,
{
    if f.tag == 1 {
        match f.data {
            RawData::Bytes(b) => Some(RpbGetBucketKeyPreflistReqView { bucket: b, ..m }),
            _ => None,
        }
    } else if f.tag == 2 {
        match f.data {
            RawData::Bytes(b) => Some(RpbGetBucketKeyPreflistReqView { key: b, ..m }),
            _ => None,
        }
    } else if f.tag == 3 {
        match f.data {
            RawData::Bytes(b) => Some(RpbGetBucketKeyPreflistReqView { bucket_type: Some(b), ..m }),
            _ => None,
        }
    } else if ctx == 0 {
        None
    } else {
        Some(m)
    }
}

/// Reads the fields of `s` into `m`, one after the other, as `prost`
/// merges a `RpbGetBucketKeyPreflistReq`.
pub open spec fn rpb_get_bucket_key_preflist_req_merge(m: RpbGetBucketKeyPreflistReqView, s: Seq<u8>, ctx: nat) -> Option<RpbGetBucketKeyPreflistReqView>
    decreases ctx, s.len(),
{
    if s.len() == 0 {
        Some(m)
    } else {
        match field_parse(s, ctx) {
            Some((f, n)) => if 1 <= n <= s.len() {
                match rpb_get_bucket_key_preflist_req_apply(m, f, ctx) {
                    Some(m2) => rpb_get_bucket_key_preflist_req_merge(m2, s.skip(n as int), ctx),
                    None => None,
                }
            } else {
                None
            },
            None => None,
        }
    }
}

/// A `RpbGetBucketKeyPreflistReq` read from `s`, or `None` where `s` is malformed: its
/// fields merged into an empty message with the full allowance of 100.
pub open spec fn rpb_get_bucket_key_preflist_req_decode(s: Seq<u8>) -> Option<RpbGetBucketKeyPreflistReqView> {
    rpb_get_bucket_key_preflist_req_merge(rpb_get_bucket_key_preflist_req_empty(), s, 100)
}

impl RpbGetBucketKeyPreflistReq {
    /// A `RpbGetBucketKeyPreflistReq` with no field set.
    pub fn empty() -> (r: RpbGetBucketKeyPreflistReq)
        ensures
            r@ == rpb_get_bucket_key_preflist_req_empty(),
    {
        let r = RpbGetBucketKeyPreflistReq {
            bucket: Vec::new(),
            key: Vec::new(),
            bucket_type: None,
        };
        r
    }

    /// The bytes of this message, in a new buffer.
    pub fn encode_to_vec(&self) -> (r: Vec<u8>)
        ensures
            r@ == rpb_get_bucket_key_preflist_req_bytes(self@),
    {
        let mut buf: Vec<u8> = Vec::new();
        self.encode(&mut buf);
        proof {
            assert(buf@ =~= rpb_get_bucket_key_preflist_req_bytes(self@));
        }
        buf
    }

}

impl WireMessage for RpbGetBucketKeyPreflistReq {
    open spec fn wire_bytes(&self) -> Seq<u8> {
        rpb_get_bucket_key_preflist_req_bytes(self@)
    }

    fn encode(&self, buf: &mut Vec<u8>) {
        let ghost start = buf@;
        put_bytes_field(buf, 1, self.bucket.as_slice());
        let ghost mut acc = bytes_piece(1, self@.bucket);
        proof {
            assert(buf@ == start + acc);
        }
        put_bytes_field(buf, 2, self.key.as_slice());
        proof {
            lemma_concat_assoc(start, acc, bytes_piece(2, self@.key));
            acc = acc + bytes_piece(2, self@.key);
        }
        put_opt_bytes(buf, 3, &self.bucket_type);
        proof {
            lemma_concat_assoc(start, acc, opt_bytes_piece(3, self@.bucket_type));
            acc = acc + opt_bytes_piece(3, self@.bucket_type);
        }
        proof {
            assert(acc == rpb_get_bucket_key_preflist_req_bytes(self@));
        }
    }
}

/// One partition of a preference list.
#[derive(Clone, Debug)]
pub struct RpbBucketKeyPreflistItem {
    pub partition: i64,
    pub node: Vec<u8>,
    pub primary: bool,
}

/// The value of a `RpbBucketKeyPreflistItem`.
pub struct RpbBucketKeyPreflistItemView {
    pub partition: i64,
    pub node: Seq<u8>,
    pub primary: bool,
}

impl View for RpbBucketKeyPreflistItem {
    type V = RpbBucketKeyPreflistItemView;

    open spec fn view(&self) -> RpbBucketKeyPreflistItemView {
        RpbBucketKeyPreflistItemView {
            partition: self.partition,
            node: self.node@,
            primary: self.primary,
        }
    }
}

/// A `RpbBucketKeyPreflistItem` with no field set.
pub open spec fn rpb_bucket_key_preflist_item_empty() -> RpbBucketKeyPreflistItemView {
    RpbBucketKeyPreflistItemView {
        partition: 0,
        node: Seq::empty(),
        primary: false,
    }
}

/// The bytes of a `RpbBucketKeyPreflistItem`: its fields in the order of their tags.
pub open spec fn rpb_bucket_key_preflist_item_bytes(m: RpbBucketKeyPreflistItemView) -> Seq<u8> {
    varint_piece(1, i64_code(m.partition))
        + bytes_piece(2, m.node)
        + varint_piece(3, bool_code(m.primary))
}

/// What one field read from the wire does to a `RpbBucketKeyPreflistItem`: `None` where
/// the field has a known tag and a payload of another wire type, or a
/// nested message that does not read. Fields of unknown tags are skipped.
/// `ctx` is what is left of the nesting allowance of 100 messages: a
/// nested message, or an unknown field, needs some of it.
pub open spec fn rpb_bucket_key_preflist_item_apply(m: RpbBucketKeyPreflistItemView, f: RawField, ctx: nat) -> Option<RpbBucketKeyPreflistItemView>
    decreases ctx, 0nat,
{
    if f.tag == 1 {
        match f.data {
            RawData::Varint(v) => Some(RpbBucketKeyPreflistItemView { partition: i64_of_code(v), ..m }),
            _ => None,
        }
    } else if f.tag == 2 {
        match f.data {
            RawData::Bytes(b) => Some(RpbBucketKeyPreflistItemView { node: b, ..m }),
            _ => None,
        }
    } else if f.tag == 3 {
        match f.data {
            RawData::Varint(v) => Some(RpbBucketKeyPreflistItemView { primary: v != 0, ..m }),
            _ => None,
        }
    } else if ctx == 0 {
        None
    } else {
        Some(m)
    }
}

/// Reads the fields of `s` into `m`, one after the other, as `prost`
/// merges a `RpbBucketKeyPreflistItem`.
pub open spec fn rpb_bucket_key_preflist_item_merge(m: RpbBucketKeyPreflistItemView, s: Seq<u8>, ctx: nat) -> Option<RpbBucketKeyPreflistItemView>
    decreases ctx, s.len(),
{
    if s.len() == 0 {
        Some(m)
    } else {
        match field_parse(s, ctx) {
            Some((f, n)) => if 1 <= n <= s.len() {
                match rpb_bucket_key_preflist_item_apply(m, f, ctx) {
                    Some(m2) => rpb_bucket_key_preflist_item_merge(m2, s.skip(n as int), ctx),
                    None => None,
                }
            } else {
                None
            },
            None => None,
        }
    }
}

/// A `RpbBucketKeyPreflistItem` read from `s`, or `None` where `s` is malformed: its
/// fields merged into an empty message with the full allowance of 100.
pub open spec fn rpb_bucket_key_preflist_item_decode(s: Seq<u8>) -> Option<RpbBucketKeyPreflistItemView> {
    rpb_bucket_key_preflist_item_merge(rpb_bucket_key_preflist_item_empty(), s, 100)
}

impl RpbBucketKeyPreflistItem {
    /// A `RpbBucketKeyPreflistItem` with no field set.
    pub fn empty() -> (r: RpbBucketKeyPreflistItem)
        ensures
            r@ == rpb_bucket_key_preflist_item_empty(),
    {
        let r = RpbBucketKeyPreflistItem {
            partition: 0,
            node: Vec::new(),
            primary: false,
        };
        r
    }

    /// Reads the fields of `buf` into this message, as `prost` merges a
    /// `RpbBucketKeyPreflistItem`.
    pub fn merge_from(&mut self, buf: &[u8], ctx: u32) -> (res: Result<(), DecodeError>)
        ensures
            match res {
                Ok(()) => rpb_bucket_key_preflist_item_merge(old(self)@, buf@, ctx as nat) == Some(final(self)@),
                Err(_) => rpb_bucket_key_preflist_item_merge(old(self)@, buf@, ctx as nat) is None,
            },
        decreases ctx, buf@.len(),
    {
        let mut rest = buf;
        while rest.len() > 0
            invariant
                rpb_bucket_key_preflist_item_merge(old(self)@, buf@, ctx as nat) == rpb_bucket_key_preflist_item_merge(self@, rest@, ctx as nat),
                rest@.len() <= buf@.len(),
            decreases rest@.len(),
        {
            let (f, r2) = match read_field(rest, ctx) {
                Ok(p) => p,
                Err(e) => return Err(e),
            };
            proof {
                lemma_field_parse_len(rest@, ctx as nat);
            }
            match self.apply_field(f, ctx) {
                Ok(()) => {},
                Err(e) => return Err(e),
            }
            rest = r2;
        }
        Ok(())
    }

    /// Reads a `RpbBucketKeyPreflistItem` from `buf`, with the full allowance of 100.
    pub fn decode(buf: &[u8]) -> (res: Result<RpbBucketKeyPreflistItem, DecodeError>)
        ensures
            match res {
                Ok(m) => rpb_bucket_key_preflist_item_decode(buf@) == Some(m@),
                Err(_) => rpb_bucket_key_preflist_item_decode(buf@) is None,
            },
    {
        let mut m = RpbBucketKeyPreflistItem::empty();
        match m.merge_from(buf, 100) {
            Ok(()) => Ok(m),
            Err(e) => Err(e),
        }
    }

    fn apply_field(&mut self, f: Field, ctx: u32) -> (res: Result<(), DecodeError>)
        ensures
            match res {
                Ok(()) => rpb_bucket_key_preflist_item_apply(old(self)@, f@, ctx as nat) == Some(final(self)@),
                Err(_) => rpb_bucket_key_preflist_item_apply(old(self)@, f@, ctx as nat) is None,
            },
        decreases ctx, 0nat,
    {
        let Field { tag, data } = f;
        if tag == 1 {
            match data {
                FieldData::Varint(v) => {
                    self.partition = i64_from_code(v);
                    Ok(())
                },
                _ => Err(decode_error("invalid wire type")),
            }
        } else if tag == 2 {
            match data {
                FieldData::Bytes(b) => {
                    self.node = b;
                    Ok(())
                },
                _ => Err(decode_error("invalid wire type")),
            }
        } else if tag == 3 {
            match data {
                FieldData::Varint(v) => {
                    self.primary = v != 0;
                    Ok(())
                },
                _ => Err(decode_error("invalid wire type")),
            }
        } else if ctx == 0 {
            Err(decode_error("recursion limit reached"))
        } else {
            Ok(())
        }
    }

}

/// The preference list of a key.
#[derive(Clone, Debug)]
pub struct RpbGetBucketKeyPreflistResp {
    pub preflist: Vec<RpbBucketKeyPreflistItem>,
}

/// The value of a `RpbGetBucketKeyPreflistResp`.
pub struct RpbGetBucketKeyPreflistRespView {
    pub preflist: Seq<RpbBucketKeyPreflistItemView>,
}

impl View for RpbGetBucketKeyPreflistResp {
    type V = RpbGetBucketKeyPreflistRespView;

    open spec fn view(&self) -> RpbGetBucketKeyPreflistRespView {
        RpbGetBucketKeyPreflistRespView {
            preflist: self.preflist@.map_values(|m: RpbBucketKeyPreflistItem| m@),
        }
    }
}

/// A `RpbGetBucketKeyPreflistResp` with no field set.
pub open spec fn rpb_get_bucket_key_preflist_resp_empty() -> RpbGetBucketKeyPreflistRespView {
    RpbGetBucketKeyPreflistRespView {
        preflist: Seq::empty(),
    }
}

/// The bytes of a `RpbGetBucketKeyPreflistResp`: its fields in the order of their tags.
pub open spec fn rpb_get_bucket_key_preflist_resp_bytes(m: RpbGetBucketKeyPreflistRespView) -> Seq<u8> {
    rep_bytes_piece(1, m.preflist.map_values(|s: RpbBucketKeyPreflistItemView| rpb_bucket_key_preflist_item_bytes(s)))
}

/// What one field read from the wire does to a `RpbGetBucketKeyPreflistResp`: `None` where
/// the field has a known tag and a payload of another wire type, or a
/// nested message that does not read. Fields of unknown tags are skipped.
/// `ctx` is what is left of the nesting allowance of 100 messages: a
/// nested message, or an unknown field, needs some of it.
pub open spec fn rpb_get_bucket_key_preflist_resp_apply(m: RpbGetBucketKeyPreflistRespView, f: RawField, ctx: nat) -> Option<RpbGetBucketKeyPreflistRespView>
    decreases ctx, 0nat,
{
    if f.tag == 1 {
        match f.data {
            RawData::Bytes(b) => if ctx == 0 {
                None
            } else {
                match rpb_bucket_key_preflist_item_merge(rpb_bucket_key_preflist_item_empty(), b, (ctx - 1) as nat) {
                    Some(s) => Some(RpbGetBucketKeyPreflistRespView { preflist: m.preflist.push(s), ..m }),
                    None => None,
                }
            },
            _ => None,
        }
    } else if ctx == 0 {
        None
    } else {
        Some(m)
    }
}

/// Reads the fields of `s` into `m`, one after the other, as `prost`
/// merges a `RpbGetBucketKeyPreflistResp`.
pub open spec fn rpb_get_bucket_key_preflist_resp_merge(m: RpbGetBucketKeyPreflistRespView, s: Seq<u8>, ctx: nat) -> Option<RpbGetBucketKeyPreflistRespView>
    decreases ctx, s.len(),
{
    if s.len() == 0 {
        Some(m)
    } else {
        match field_parse(s, ctx) {
            Some((f, n)) => if 1 <= n <= s.len() {
                match rpb_get_bucket_key_preflist_resp_apply(m, f, ctx) {
                    Some(m2) => rpb_get_bucket_key_preflist_resp_merge(m2, s.skip(n as int), ctx),
                    None => None,
                }
            } else {
                None
            },
            None => None,
        }
    }
}

/// A `RpbGetBucketKeyPreflistResp` read from `s`, or `None` where `s` is malformed: its
/// fields merged into an empty message with the full allowance of 100.
pub open spec fn rpb_get_bucket_key_preflist_resp_decode(s: Seq<u8>) -> Option<RpbGetBucketKeyPreflistRespView> {
    rpb_get_bucket_key_preflist_resp_merge(rpb_get_bucket_key_preflist_resp_empty(), s, 100)
}

impl RpbGetBucketKeyPreflistResp {
    /// A `RpbGetBucketKeyPreflistResp` with no field set.
    pub fn empty() -> (r: RpbGetBucketKeyPreflistResp)
        ensures
            r@ == rpb_get_bucket_key_preflist_resp_empty(),
    {
        let r = RpbGetBucketKeyPreflistResp {
            preflist: Vec::new(),
        };
        proof {
            assert(r.preflist@.map_values(|m: RpbBucketKeyPreflistItem| m@) =~= Seq::<RpbBucketKeyPreflistItemView>::empty());
        }
        r
    }

    /// Reads the fields of `buf` into this message, as `prost` merges a
    /// `RpbGetBucketKeyPreflistResp`.
    pub fn merge_from(&mut self, buf: &[u8], ctx: u32) -> (res: Result<(), DecodeError>)
        ensures
            match res {
                Ok(()) => rpb_get_bucket_key_preflist_resp_merge(old(self)@, buf@, ctx as nat) == Some(final(self)@),
                Err(_) => rpb_get_bucket_key_preflist_resp_merge(old(self)@, buf@, ctx as nat) is None,
            },
        decreases ctx, buf@.len(),
    {
        let mut rest = buf;
        while rest.len() > 0
            invariant
                rpb_get_bucket_key_preflist_resp_merge(old(self)@, buf@, ctx as nat) == rpb_get_bucket_key_preflist_resp_merge(self@, rest@, ctx as nat),
                rest@.len() <= buf@.len(),
            decreases rest@.len(),
        {
            let (f, r2) = match read_field(rest, ctx) {
                Ok(p) => p,
                Err(e) => return Err(e),
            };
            proof {
                lemma_field_parse_len(rest@, ctx as nat);
            }
            match self.apply_field(f, ctx) {
                Ok(()) => {},
                Err(e) => return Err(e),
            }
            rest = r2;
        }
        Ok(())
    }

    /// Reads a `RpbGetBucketKeyPreflistResp` from `buf`, with the full allowance of 100.
    pub fn decode(buf: &[u8]) -> (res: Result<RpbGetBucketKeyPreflistResp, DecodeError>)
        ensures
            match res {
                Ok(m) => rpb_get_bucket_key_preflist_resp_decode(buf@) == Some(m@),
                Err(_) => rpb_get_bucket_key_preflist_resp_decode(buf@) is None,
            },
    {
        let mut m = RpbGetBucketKeyPreflistResp::empty();
        match m.merge_from(buf, 100) {
            Ok(()) => Ok(m),
            Err(e) => Err(e),
        }
    }

    fn apply_field(&mut self, f: Field, ctx: u32) -> (res: Result<(), DecodeError>)
        ensures
            match res {
                Ok(()) => rpb_get_bucket_key_preflist_resp_apply(old(self)@, f@, ctx as nat) == Some(final(self)@),
                Err(_) => rpb_get_bucket_key_preflist_resp_apply(old(self)@, f@, ctx as nat) is None,
            },
        decreases ctx, 0nat,
    {
        let Field { tag, data } = f;
        if tag == 1 {
            match data {
                FieldData::Bytes(b) => {
                    if ctx == 0 {
                        return Err(decode_error("recursion limit reached"));
                    }
                    let mut s = RpbBucketKeyPreflistItem::empty();
                    match s.merge_from(b.as_slice(), ctx - 1) {
                        Ok(()) => {
                            let ghost prev = self.preflist@.map_values(|m: RpbBucketKeyPreflistItem| m@);
                            let ghost sv = s@;
                            self.preflist.push(s);
                            proof {
                                assert(self.preflist@.map_values(|m: RpbBucketKeyPreflistItem| m@) =~= prev.push(sv));
                            }
                            Ok(())
                        },
                        Err(e) => Err(e),
                    }
                },
                _ => Err(decode_error("invalid wire type")),
            }
        } else if ctx == 0 {
            Err(decode_error("recursion limit reached"))
        } else {
            Ok(())
        }
    }

}

proof fn lemma_rpb_get_server_info_resp_field_node(cur: RpbGetServerInfoRespView, v: Option<Seq<u8>>, rest: Seq<u8>, ctx: nat)
    requires
        cur.node == rpb_get_server_info_resp_empty().node,
        (opt_bytes_piece(1, v) + rest).len() < 0x1_0000_0000_0000_0000,
        ctx >= 0,
    ensures
        rpb_get_server_info_resp_merge(cur, opt_bytes_piece(1, v) + rest, ctx) == rpb_get_server_info_resp_merge((RpbGetServerInfoRespView { node: v, ..cur }), rest, ctx),
{
    if v is Some {
        let f = bytes_field(1, v->0);
        let s = opt_bytes_piece(1, v) + rest;
        lemma_field_roundtrip(f, rest, ctx);
        lemma_field_parse_len(s, ctx);
        assert(s.skip(field_bytes(f).len() as int) =~= rest);
        assert(rpb_get_server_info_resp_apply(cur, f, ctx) == Some(RpbGetServerInfoRespView { node: v, ..cur }));
    } else {
        assert(opt_bytes_piece(1, v) + rest =~= rest);
        assert((RpbGetServerInfoRespView { node: v, ..cur }) == cur);
    }
}

proof fn lemma_rpb_get_server_info_resp_field_server_version(cur: RpbGetServerInfoRespView, v: Option<Seq<u8>>, rest: Seq<u8>, ctx: nat)
    requires
        cur.server_version == rpb_get_server_info_resp_empty().server_version,
        (opt_bytes_piece(2, v) + rest).len() < 0x1_0000_0000_0000_0000,
        ctx >= 0,
    ensures
        rpb_get_server_info_resp_merge(cur, opt_bytes_piece(2, v) + rest, ctx) == rpb_get_server_info_resp_merge((RpbGetServerInfoRespView { server_version: v, ..cur }), rest, ctx),
{
    if v is Some {
        let f = bytes_field(2, v->0);
        let s = opt_bytes_piece(2, v) + rest;
        lemma_field_roundtrip(f, rest, ctx);
        lemma_field_parse_len(s, ctx);
        assert(s.skip(field_bytes(f).len() as int) =~= rest);
        assert(rpb_get_server_info_resp_apply(cur, f, ctx) == Some(RpbGetServerInfoRespView { server_version: v, ..cur }));
    } else {
        assert(opt_bytes_piece(2, v) + rest =~= rest);
        assert((RpbGetServerInfoRespView { server_version: v, ..cur }) == cur);
    }
}

/// A `RpbGetServerInfoResp` written to bytes merges back into an empty one as itself,
/// with an allowance of at least 0.
#[verifier::rlimit(50)]
pub proof fn lemma_rpb_get_server_info_resp_reads_back(m: RpbGetServerInfoRespView, ctx: nat)
    requires
        rpb_get_server_info_resp_bytes(m).len() < 0x1_0000_0000_0000_0000,
        ctx >= 0,
    ensures
        rpb_get_server_info_resp_merge(rpb_get_server_info_resp_empty(), rpb_get_server_info_resp_bytes(m), ctx) == Some(m),
{
    let p0 = opt_bytes_piece(1, m.node);
    let p1 = opt_bytes_piece(2, m.server_version);
    let s2 = Seq::<u8>::empty();
    let s1 = p1 + s2;
    let s0 = p0 + s1;
    assert(rpb_get_server_info_resp_bytes(m) == s0) by {
        lemma_concat_assoc(p0, p1, s2);
        assert(p0 + p1 + s2 =~= p0 + p1);
    }
    let m0 = rpb_get_server_info_resp_empty();
    let m1 = RpbGetServerInfoRespView { node: m.node, ..m0 };
    let m2 = RpbGetServerInfoRespView { server_version: m.server_version, ..m1 };
    lemma_rpb_get_server_info_resp_field_node(m0, m.node, s1, ctx);
    lemma_rpb_get_server_info_resp_field_server_version(m1, m.server_version, s2, ctx);
    assert(m2 == m);
}

/// A `RpbGetServerInfoResp` written to bytes reads back as itself.
pub proof fn lemma_rpb_get_server_info_resp_roundtrip(m: RpbGetServerInfoRespView)
    requires
        rpb_get_server_info_resp_bytes(m).len() < 0x1_0000_0000_0000_0000,
    ensures
        rpb_get_server_info_resp_decode(rpb_get_server_info_resp_bytes(m)) == Some(m),
{
    lemma_rpb_get_server_info_resp_reads_back(m, 100);
}

proof fn lemma_rpb_pair_field_key(cur: RpbPairView, v: Seq<u8>, rest: Seq<u8>, ctx: nat)
    requires
        cur.key == rpb_pair_empty().key,
        (bytes_piece(1, v) + rest).len() < 0x1_0000_0000_0000_0000,
        ctx >= 0,
    ensures
        rpb_pair_merge(cur, bytes_piece(1, v) + rest, ctx) == rpb_pair_merge((RpbPairView { key: v, ..cur }), rest, ctx),
{
    let f = bytes_field(1, v);
    let s = bytes_piece(1, v) + rest;
    lemma_field_roundtrip(f, rest, ctx);
    lemma_field_parse_len(s, ctx);
    assert(s.skip(field_bytes(f).len() as int) =~= rest);
    assert(rpb_pair_apply(cur, f, ctx) == Some(RpbPairView { key: v, ..cur }));
}

proof fn lemma_rpb_pair_field_value(cur: RpbPairView, v: Option<Seq<u8>>, rest: Seq<u8>, ctx: nat)
    requires
        cur.value == rpb_pair_empty().value,
        (opt_bytes_piece(2, v) + rest).len() < 0x1_0000_0000_0000_0000,
        ctx >= 0,
    ensures
        rpb_pair_merge(cur, opt_bytes_piece(2, v) + rest, ctx) == rpb_pair_merge((RpbPairView { value: v, ..cur }), rest, ctx),
{
    if v is Some {
        let f = bytes_field(2, v->0);
        let s = opt_bytes_piece(2, v) + rest;
        lemma_field_roundtrip(f, rest, ctx);
        lemma_field_parse_len(s, ctx);
        assert(s.skip(field_bytes(f).len() as int) =~= rest);
        assert(rpb_pair_apply(cur, f, ctx) == Some(RpbPairView { value: v, ..cur }));
    } else {
        assert(opt_bytes_piece(2, v) + rest =~= rest);
        assert((RpbPairView { value: v, ..cur }) == cur);
    }
}

/// A `RpbPair` written to bytes merges back into an empty one as itself,
/// with an allowance of at least 0.
#[verifier::rlimit(50)]
pub proof fn lemma_rpb_pair_reads_back(m: RpbPairView, ctx: nat)
    requires
        rpb_pair_bytes(m).len() < 0x1_0000_0000_0000_0000,
        ctx >= 0,
    ensures
        rpb_pair_merge(rpb_pair_empty(), rpb_pair_bytes(m), ctx) == Some(m),
{
    let p0 = bytes_piece(1, m.key);
    let p1 = opt_bytes_piece(2, m.value);
    let s2 = Seq::<u8>::empty();
    let s1 = p1 + s2;
    let s0 = p0 + s1;
    assert(rpb_pair_bytes(m) == s0) by {
        lemma_concat_assoc(p0, p1, s2);
        assert(p0 + p1 + s2 =~= p0 + p1);
    }
    let m0 = rpb_pair_empty();
    let m1 = RpbPairView { key: m.key, ..m0 };
    let m2 = RpbPairView { value: m.value, ..m1 };
    lemma_rpb_pair_field_key(m0, m.key, s1, ctx);
    lemma_rpb_pair_field_value(m1, m.value, s2, ctx);
    assert(m2 == m);
}

/// A `RpbPair` written to bytes reads back as itself.
pub proof fn lemma_rpb_pair_roundtrip(m: RpbPairView)
    requires
        rpb_pair_bytes(m).len() < 0x1_0000_0000_0000_0000,
    ensures
        rpb_pair_decode(rpb_pair_bytes(m)) == Some(m),
{
    lemma_rpb_pair_reads_back(m, 100);
}

proof fn lemma_rpb_mod_fun_field_module(cur: RpbModFunView, v: Seq<u8>, rest: Seq<u8>, ctx: nat)
    requires
        cur.module == rpb_mod_fun_empty().module,
        (bytes_piece(1, v) + rest).len() < 0x1_0000_0000_0000_0000,
        ctx >= 0,
    ensures
        rpb_mod_fun_merge(cur, bytes_piece(1, v) + rest, ctx) == rpb_mod_fun_merge((RpbModFunView { module: v, ..cur }), rest, ctx),
{
    let f = bytes_field(1, v);
    let s = bytes_piece(1, v) + rest;
    lemma_field_roundtrip(f, rest, ctx);
    lemma_field_parse_len(s, ctx);
    assert(s.skip(field_bytes(f).len() as int) =~= rest);
    assert(rpb_mod_fun_apply(cur, f, ctx) == Some(RpbModFunView { module: v, ..cur }));
}

proof fn lemma_rpb_mod_fun_field_function(cur: RpbModFunView, v: Seq<u8>, rest: Seq<u8>, ctx: nat)
    requires
        cur.function == rpb_mod_fun_empty().function,
        (bytes_piece(2, v) + rest).len() < 0x1_0000_0000_0000_0000,
        ctx >= 0,
    ensures
        rpb_mod_fun_merge(cur, bytes_piece(2, v) + rest, ctx) == rpb_mod_fun_merge((RpbModFunView { function: v, ..cur }), rest, ctx),
{
    let f = bytes_field(2, v);
    let s = bytes_piece(2, v) + rest;
    lemma_field_roundtrip(f, rest, ctx);
    lemma_field_parse_len(s, ctx);
    assert(s.skip(field_bytes(f).len() as int) =~= rest);
    assert(rpb_mod_fun_apply(cur, f, ctx) == Some(RpbModFunView { function: v, ..cur }));
}

/// A `RpbModFun` written to bytes merges back into an empty one as itself,
/// with an allowance of at least 0.
#[verifier::rlimit(50)]
pub proof fn lemma_rpb_mod_fun_reads_back(m: RpbModFunView, ctx: nat)
    requires
        rpb_mod_fun_bytes(m).len() < 0x1_0000_0000_0000_0000,
        ctx >= 0,
    ensures
        rpb_mod_fun_merge(rpb_mod_fun_empty(), rpb_mod_fun_bytes(m), ctx) == Some(m),
{
    let p0 = bytes_piece(1, m.module);
    let p1 = bytes_piece(2, m.function);
    let s2 = Seq::<u8>::empty();
    let s1 = p1 + s2;
    let s0 = p0 + s1;
    assert(rpb_mod_fun_bytes(m) == s0) by {
        lemma_concat_assoc(p0, p1, s2);
        assert(p0 + p1 + s2 =~= p0 + p1);
    }
    let m0 = rpb_mod_fun_empty();
    let m1 = RpbModFunView { module: m.module, ..m0 };
    let m2 = RpbModFunView { function: m.function, ..m1 };
    lemma_rpb_mod_fun_field_module(m0, m.module, s1, ctx);
    lemma_rpb_mod_fun_field_function(m1, m.function, s2, ctx);
    assert(m2 == m);
}

/// A `RpbModFun` written to bytes reads back as itself.
pub proof fn lemma_rpb_mod_fun_roundtrip(m: RpbModFunView)
    requires
        rpb_mod_fun_bytes(m).len() < 0x1_0000_0000_0000_0000,
    ensures
        rpb_mod_fun_decode(rpb_mod_fun_bytes(m)) == Some(m),
{
    lemma_rpb_mod_fun_reads_back(m, 100);
}

#[verifier::rlimit(50)]
proof fn lemma_rpb_commit_hook_field_modfun(cur: RpbCommitHookView, v: Option<RpbModFunView>, rest: Seq<u8>, ctx: nat)
    requires
        cur.modfun == rpb_commit_hook_empty().modfun,
        (opt_bytes_piece(1, match v { Some(s) => Some(rpb_mod_fun_bytes(s)), None => None }) + rest).len() < 0x1_0000_0000_0000_0000,
        ctx >= 1,
    ensures
        rpb_commit_hook_merge(cur, opt_bytes_piece(1, match v { Some(s) => Some(rpb_mod_fun_bytes(s)), None => None }) + rest, ctx) == rpb_commit_hook_merge((RpbCommitHookView { modfun: v, ..cur }), rest, ctx),
{
    if v is Some {
        let f = bytes_field(1, rpb_mod_fun_bytes(v->0));
        let s = opt_bytes_piece(1, match v { Some(s) => Some(rpb_mod_fun_bytes(s)), None => None }) + rest;
        lemma_field_roundtrip(f, rest, ctx);
        lemma_field_parse_len(s, ctx);
        assert(s.skip(field_bytes(f).len() as int) =~= rest);
        lemma_rpb_mod_fun_reads_back(v->0, (ctx - 1) as nat);
        assert(rpb_commit_hook_apply(cur, f, ctx) == Some(RpbCommitHookView { modfun: v, ..cur }));
    } else {
        assert(opt_bytes_piece(1, match v { Some(s) => Some(rpb_mod_fun_bytes(s)), None => None }) + rest =~= rest);
        assert((RpbCommitHookView { modfun: v, ..cur }) == cur);
    }
}

proof fn lemma_rpb_commit_hook_field_name(cur: RpbCommitHookView, v: Option<Seq<u8>>, rest: Seq<u8>, ctx: nat)
    requires
        cur.name == rpb_commit_hook_empty().name,
        (opt_bytes_piece(2, v) + rest).len() < 0x1_0000_0000_0000_0000,
        ctx >= 1,
    ensures
        rpb_commit_hook_merge(cur, opt_bytes_piece(2, v) + rest, ctx) == rpb_commit_hook_merge((RpbCommitHookView { name: v, ..cur }), rest, ctx),
{
    if v is Some {
        let f = bytes_field(2, v->0);
        let s = opt_bytes_piece(2, v) + rest;
        lemma_field_roundtrip(f, rest, ctx);
        lemma_field_parse_len(s, ctx);
        assert(s.skip(field_bytes(f).len() as int) =~= rest);
        assert(rpb_commit_hook_apply(cur, f, ctx) == Some(RpbCommitHookView { name: v, ..cur }));
    } else {
        assert(opt_bytes_piece(2, v) + rest =~= rest);
        assert((RpbCommitHookView { name: v, ..cur }) == cur);
    }
}

/// A `RpbCommitHook` written to bytes merges back into an empty one as itself,
/// with an allowance of at least 1.
#[verifier::rlimit(50)]
pub proof fn lemma_rpb_commit_hook_reads_back(m: RpbCommitHookView, ctx: nat)
    requires
        rpb_commit_hook_bytes(m).len() < 0x1_0000_0000_0000_0000,
        ctx >= 1,
    ensures
        rpb_commit_hook_merge(rpb_commit_hook_empty(), rpb_commit_hook_bytes(m), ctx) == Some(m),
{
    let p0 = opt_bytes_piece(1, match m.modfun { Some(s) => Some(rpb_mod_fun_bytes(s)), None => None });
    let p1 = opt_bytes_piece(2, m.name);
    let s2 = Seq::<u8>::empty();
    let s1 = p1 + s2;
    let s0 = p0 + s1;
    assert(rpb_commit_hook_bytes(m) == s0) by {
        lemma_concat_assoc(p0, p1, s2);
        assert(p0 + p1 + s2 =~= p0 + p1);
    }
    let m0 = rpb_commit_hook_empty();
    let m1 = RpbCommitHookView { modfun: m.modfun, ..m0 };
    let m2 = RpbCommitHookView { name: m.name, ..m1 };
    lemma_rpb_commit_hook_field_modfun(m0, m.modfun, s1, ctx);
    lemma_rpb_commit_hook_field_name(m1, m.name, s2, ctx);
    assert(m2 == m);
}

/// A `RpbCommitHook` written to bytes reads back as itself.
pub proof fn lemma_rpb_commit_hook_roundtrip(m: RpbCommitHookView)
    requires
        rpb_commit_hook_bytes(m).len() < 0x1_0000_0000_0000_0000,
    ensures
        rpb_commit_hook_decode(rpb_commit_hook_bytes(m)) == Some(m),
{
    lemma_rpb_commit_hook_reads_back(m, 100);
}

proof fn lemma_rpb_bucket_props_rep_precommit(m0: RpbBucketPropsView, s: Seq<RpbCommitHookView>, rest: Seq<u8>, ctx: nat)
    requires
        (rep_bytes_piece(4, s.map_values(|v: RpbCommitHookView| rpb_commit_hook_bytes(v))) + rest).len() < 0x1_0000_0000_0000_0000,
        ctx >= 2,
    ensures
        rpb_bucket_props_merge(m0, rep_bytes_piece(4, s.map_values(|v: RpbCommitHookView| rpb_commit_hook_bytes(v))) + rest, ctx) == rpb_bucket_props_merge((RpbBucketPropsView { precommit: m0.precommit + s, ..m0 }), rest, ctx),
    decreases s.len(),
{
    let bs = s.map_values(|v: RpbCommitHookView| rpb_commit_hook_bytes(v));
    if s.len() == 0 {
        assert(rep_bytes_piece(4, bs) + rest =~= rest);
        assert(m0.precommit + s =~= m0.precommit);
        assert((RpbBucketPropsView { precommit: m0.precommit + s, ..m0 }) == m0);
    } else {
        let s2 = s.drop_last();
        let x = s.last();
        let f = bytes_field(4, rpb_commit_hook_bytes(x));
        let bs2 = s2.map_values(|v: RpbCommitHookView| rpb_commit_hook_bytes(v));
        assert(bs.drop_last() =~= bs2);
        assert(rep_bytes_piece(4, bs) + rest =~= rep_bytes_piece(4, bs2) + (field_bytes(f) + rest));
        lemma_rpb_bucket_props_rep_precommit(m0, s2, field_bytes(f) + rest, ctx);
        let m1 = RpbBucketPropsView { precommit: m0.precommit + s2, ..m0 };
        let tail = field_bytes(f) + rest;
        lemma_field_roundtrip(f, rest, ctx);
        lemma_field_parse_len(tail, ctx);
        assert(tail.skip(field_bytes(f).len() as int) =~= rest);
        lemma_rpb_commit_hook_reads_back(x, (ctx - 1) as nat);
        assert(m1.precommit.push(x) =~= m0.precommit + s);
        assert(rpb_bucket_props_apply(m1, f, ctx) == Some(RpbBucketPropsView { precommit: m0.precommit + s, ..m0 }));
    }
}

proof fn lemma_rpb_bucket_props_rep_postcommit(m0: RpbBucketPropsView, s: Seq<RpbCommitHookView>, rest: Seq<u8>, ctx: nat)
    requires
        (rep_bytes_piece(6, s.map_values(|v: RpbCommitHookView| rpb_commit_hook_bytes(v))) + rest).len() < 0x1_0000_0000_0000_0000,
        ctx >= 2,
    ensures
        rpb_bucket_props_merge(m0, rep_bytes_piece(6, s.map_values(|v: RpbCommitHookView| rpb_commit_hook_bytes(v))) + rest, ctx) == rpb_bucket_props_merge((RpbBucketPropsView { postcommit: m0.postcommit + s, ..m0 }), rest, ctx),
    decreases s.len(),
{
    let bs = s.map_values(|v: RpbCommitHookView| rpb_commit_hook_bytes(v));
    if s.len() == 0 {
        assert(rep_bytes_piece(6, bs) + rest =~= rest);
        assert(m0.postcommit + s =~= m0.postcommit);
        assert((RpbBucketPropsView { postcommit: m0.postcommit + s, ..m0 }) == m0);
    } else {
        let s2 = s.drop_last();
        let x = s.last();
        let f = bytes_field(6, rpb_commit_hook_bytes(x));
        let bs2 = s2.map_values(|v: RpbCommitHookView| rpb_commit_hook_bytes(v));
        assert(bs.drop_last() =~= bs2);
        assert(rep_bytes_piece(6, bs) + rest =~= rep_bytes_piece(6, bs2) + (field_bytes(f) + rest));
        lemma_rpb_bucket_props_rep_postcommit(m0, s2, field_bytes(f) + rest, ctx);
        let m1 = RpbBucketPropsView { postcommit: m0.postcommit + s2, ..m0 };
        let tail = field_bytes(f) + rest;
        lemma_field_roundtrip(f, rest, ctx);
        lemma_field_parse_len(tail, ctx);
        assert(tail.skip(field_bytes(f).len() as int) =~= rest);
        lemma_rpb_commit_hook_reads_back(x, (ctx - 1) as nat);
        assert(m1.postcommit.push(x) =~= m0.postcommit + s);
        assert(rpb_bucket_props_apply(m1, f, ctx) == Some(RpbBucketPropsView { postcommit: m0.postcommit + s, ..m0 }));
    }
}

proof fn lemma_rpb_bucket_props_field_n_val(cur: RpbBucketPropsView, v: Option<u32>, rest: Seq<u8>, ctx: nat)
    requires
        cur.n_val == rpb_bucket_props_empty().n_val,
        (opt_varint_piece(1, opt_u32_code(v)) + rest).len() < 0x1_0000_0000_0000_0000,
        ctx >= 2,
    ensures
        rpb_bucket_props_merge(cur, opt_varint_piece(1, opt_u32_code(v)) + rest, ctx) == rpb_bucket_props_merge((RpbBucketPropsView { n_val: v, ..cur }), rest, ctx),
{
    if v is Some {
        let f = varint_field(1, v->0 as u64);
        let s = opt_varint_piece(1, opt_u32_code(v)) + rest;
        lemma_field_roundtrip(f, rest, ctx);
        lemma_field_parse_len(s, ctx);
        assert(s.skip(field_bytes(f).len() as int) =~= rest);
        assert(rpb_bucket_props_apply(cur, f, ctx) == Some(RpbBucketPropsView { n_val: v, ..cur }));
    } else {
        assert(opt_varint_piece(1, opt_u32_code(v)) + rest =~= rest);
        assert((RpbBucketPropsView { n_val: v, ..cur }) == cur);
    }
}

proof fn lemma_rpb_bucket_props_field_allow_mult(cur: RpbBucketPropsView, v: Option<bool>, rest: Seq<u8>, ctx: nat)
    requires
        cur.allow_mult == rpb_bucket_props_empty().allow_mult,
        (opt_varint_piece(2, opt_bool_code(v)) + rest).len() < 0x1_0000_0000_0000_0000,
        ctx >= 2,
    ensures
        rpb_bucket_props_merge(cur, opt_varint_piece(2, opt_bool_code(v)) + rest, ctx) == rpb_bucket_props_merge((RpbBucketPropsView { allow_mult: v, ..cur }), rest, ctx),
{
    if v is Some {
        let f = varint_field(2, bool_code(v->0));
        let s = opt_varint_piece(2, opt_bool_code(v)) + rest;
        lemma_field_roundtrip(f, rest, ctx);
        lemma_field_parse_len(s, ctx);
        assert(s.skip(field_bytes(f).len() as int) =~= rest);
        assert(rpb_bucket_props_apply(cur, f, ctx) == Some(RpbBucketPropsView { allow_mult: v, ..cur }));
    } else {
        assert(opt_varint_piece(2, opt_bool_code(v)) + rest =~= rest);
        assert((RpbBucketPropsView { allow_mult: v, ..cur }) == cur);
    }
}

proof fn lemma_rpb_bucket_props_field_last_write_wins(cur: RpbBucketPropsView, v: Option<bool>, rest: Seq<u8>, ctx: nat)
    requires
        cur.last_write_wins == rpb_bucket_props_empty().last_write_wins,
        (opt_varint_piece(3, opt_bool_code(v)) + rest).len() < 0x1_0000_0000_0000_0000,
        ctx >= 2,
    ensures
        rpb_bucket_props_merge(cur, opt_varint_piece(3, opt_bool_code(v)) + rest, ctx) == rpb_bucket_props_merge((RpbBucketPropsView { last_write_wins: v, ..cur }), rest, ctx),
{
    if v is Some {
        let f = varint_field(3, bool_code(v->0));
        let s = opt_varint_piece(3, opt_bool_code(v)) + rest;
        lemma_field_roundtrip(f, rest, ctx);
        lemma_field_parse_len(s, ctx);
        assert(s.skip(field_bytes(f).len() as int) =~= rest);
        assert(rpb_bucket_props_apply(cur, f, ctx) == Some(RpbBucketPropsView { last_write_wins: v, ..cur }));
    } else {
        assert(opt_varint_piece(3, opt_bool_code(v)) + rest =~= rest);
        assert((RpbBucketPropsView { last_write_wins: v, ..cur }) == cur);
    }
}

proof fn lemma_rpb_bucket_props_field_has_precommit(cur: RpbBucketPropsView, v: Option<bool>, rest: Seq<u8>, ctx: nat)
    requires
        cur.has_precommit == rpb_bucket_props_empty().has_precommit,
        (opt_varint_piece(5, opt_bool_code(v)) + rest).len() < 0x1_0000_0000_0000_0000,
        ctx >= 2,
    ensures
        rpb_bucket_props_merge(cur, opt_varint_piece(5, opt_bool_code(v)) + rest, ctx) == rpb_bucket_props_merge((RpbBucketPropsView { has_precommit: v, ..cur }), rest, ctx),
{
    if v is Some {
        let f = varint_field(5, bool_code(v->0));
        let s = opt_varint_piece(5, opt_bool_code(v)) + rest;
        lemma_field_roundtrip(f, rest, ctx);
        lemma_field_parse_len(s, ctx);
        assert(s.skip(field_bytes(f).len() as int) =~= rest);
        assert(rpb_bucket_props_apply(cur, f, ctx) == Some(RpbBucketPropsView { has_precommit: v, ..cur }));
    } else {
        assert(opt_varint_piece(5, opt_bool_code(v)) + rest =~= rest);
        assert((RpbBucketPropsView { has_precommit: v, ..cur }) == cur);
    }
}

proof fn lemma_rpb_bucket_props_field_has_postcommit(cur: RpbBucketPropsView, v: Option<bool>, rest: Seq<u8>, ctx: nat)
    requires
        cur.has_postcommit == rpb_bucket_props_empty().has_postcommit,
        (opt_varint_piece(7, opt_bool_code(v)) + rest).len() < 0x1_0000_0000_0000_0000,
        ctx >= 2,
    ensures
        rpb_bucket_props_merge(cur, opt_varint_piece(7, opt_bool_code(v)) + rest, ctx) == rpb_bucket_props_merge((RpbBucketPropsView { has_postcommit: v, ..cur }), rest, ctx),
{
    if v is Some {
        let f = varint_field(7, bool_code(v->0));
        let s = opt_varint_piece(7, opt_bool_code(v)) + rest;
        lemma_field_roundtrip(f, rest, ctx);
        lemma_field_parse_len(s, ctx);
        assert(s.skip(field_bytes(f).len() as int) =~= rest);
        assert(rpb_bucket_props_apply(cur, f, ctx) == Some(RpbBucketPropsView { has_postcommit: v, ..cur }));
    } else {
        assert(opt_varint_piece(7, opt_bool_code(v)) + rest =~= rest);
        assert((RpbBucketPropsView { has_postcommit: v, ..cur }) == cur);
    }
}

#[verifier::rlimit(50)]
proof fn lemma_rpb_bucket_props_field_chash_keyfun(cur: RpbBucketPropsView, v: Option<RpbModFunView>, rest: Seq<u8>, ctx: nat)
    requires
        cur.chash_keyfun == rpb_bucket_props_empty().chash_keyfun,
        (opt_bytes_piece(8, match v { Some(s) => Some(rpb_mod_fun_bytes(s)), None => None }) + rest).len() < 0x1_0000_0000_0000_0000,
        ctx >= 2,
    ensures
        rpb_bucket_props_merge(cur, opt_bytes_piece(8, match v { Some(s) => Some(rpb_mod_fun_bytes(s)), None => None }) + rest, ctx) == rpb_bucket_props_merge((RpbBucketPropsView { chash_keyfun: v, ..cur }), rest, ctx),
{
    if v is Some {
        let f = bytes_field(8, rpb_mod_fun_bytes(v->0));
        let s = opt_bytes_piece(8, match v { Some(s) => Some(rpb_mod_fun_bytes(s)), None => None }) + rest;
        lemma_field_roundtrip(f, rest, ctx);
        lemma_field_parse_len(s, ctx);
        assert(s.skip(field_bytes(f).len() as int) =~= rest);
        lemma_rpb_mod_fun_reads_back(v->0, (ctx - 1) as nat);
        assert(rpb_bucket_props_apply(cur, f, ctx) == Some(RpbBucketPropsView { chash_keyfun: v, ..cur }));
    } else {
        assert(opt_bytes_piece(8, match v { Some(s) => Some(rpb_mod_fun_bytes(s)), None => None }) + rest =~= rest);
        assert((RpbBucketPropsView { chash_keyfun: v, ..cur }) == cur);
    }
}

#[verifier::rlimit(50)]
proof fn lemma_rpb_bucket_props_field_linkfun(cur: RpbBucketPropsView, v: Option<RpbModFunView>, rest: Seq<u8>, ctx: nat)
    requires
        cur.linkfun == rpb_bucket_props_empty().linkfun,
        (opt_bytes_piece(9, match v { Some(s) => Some(rpb_mod_fun_bytes(s)), None => None }) + rest).len() < 0x1_0000_0000_0000_0000,
        ctx >= 2,
    ensures
        rpb_bucket_props_merge(cur, opt_bytes_piece(9, match v { Some(s) => Some(rpb_mod_fun_bytes(s)), None => None }) + rest, ctx) == rpb_bucket_props_merge((RpbBucketPropsView { linkfun: v, ..cur }), rest, ctx),
{
    if v is Some {
        let f = bytes_field(9, rpb_mod_fun_bytes(v->0));
        let s = opt_bytes_piece(9, match v { Some(s) => Some(rpb_mod_fun_bytes(s)), None => None }) + rest;
        lemma_field_roundtrip(f, rest, ctx);
        lemma_field_parse_len(s, ctx);
        assert(s.skip(field_bytes(f).len() as int) =~= rest);
        lemma_rpb_mod_fun_reads_back(v->0, (ctx - 1) as nat);
        assert(rpb_bucket_props_apply(cur, f, ctx) == Some(RpbBucketPropsView { linkfun: v, ..cur }));
    } else {
        assert(opt_bytes_piece(9, match v { Some(s) => Some(rpb_mod_fun_bytes(s)), None => None }) + rest =~= rest);
        assert((RpbBucketPropsView { linkfun: v, ..cur }) == cur);
    }
}

proof fn lemma_rpb_bucket_props_field_old_vclock(cur: RpbBucketPropsView, v: Option<u32>, rest: Seq<u8>, ctx: nat)
    requires
        cur.old_vclock == rpb_bucket_props_empty().old_vclock,
        (opt_varint_piece(10, opt_u32_code(v)) + rest).len() < 0x1_0000_0000_0000_0000,
        ctx >= 2,
    ensures
        rpb_bucket_props_merge(cur, opt_varint_piece(10, opt_u32_code(v)) + rest, ctx) == rpb_bucket_props_merge((RpbBucketPropsView { old_vclock: v, ..cur }), rest, ctx),
{
    if v is Some {
        let f = varint_field(10, v->0 as u64);
        let s = opt_varint_piece(10, opt_u32_code(v)) + rest;
        lemma_field_roundtrip(f, rest, ctx);
        lemma_field_parse_len(s, ctx);
        assert(s.skip(field_bytes(f).len() as int) =~= rest);
        assert(rpb_bucket_props_apply(cur, f, ctx) == Some(RpbBucketPropsView { old_vclock: v, ..cur }));
    } else {
        assert(opt_varint_piece(10, opt_u32_code(v)) + rest =~= rest);
        assert((RpbBucketPropsView { old_vclock: v, ..cur }) == cur);
    }
}

proof fn lemma_rpb_bucket_props_field_young_vclock(cur: RpbBucketPropsView, v: Option<u32>, rest: Seq<u8>, ctx: nat)
    requires
        cur.young_vclock == rpb_bucket_props_empty().young_vclock,
        (opt_varint_piece(11, opt_u32_code(v)) + rest).len() < 0x1_0000_0000_0000_0000,
        ctx >= 2,
    ensures
        rpb_bucket_props_merge(cur, opt_varint_piece(11, opt_u32_code(v)) + rest, ctx) == rpb_bucket_props_merge((RpbBucketPropsView { young_vclock: v, ..cur }), rest, ctx),
{
    if v is Some {
        let f = varint_field(11, v->0 as u64);
        let s = opt_varint_piece(11, opt_u32_code(v)) + rest;
        lemma_field_roundtrip(f, rest, ctx);
        lemma_field_parse_len(s, ctx);
        assert(s.skip(field_bytes(f).len() as int) =~= rest);
        assert(rpb_bucket_props_apply(cur, f, ctx) == Some(RpbBucketPropsView { young_vclock: v, ..cur }));
    } else {
        assert(opt_varint_piece(11, opt_u32_code(v)) + rest =~= rest);
        assert((RpbBucketPropsView { young_vclock: v, ..cur }) == cur);
    }
}

proof fn lemma_rpb_bucket_props_field_big_vclock(cur: RpbBucketPropsView, v: Option<u32>, rest: Seq<u8>, ctx: nat)
    requires
        cur.big_vclock == rpb_bucket_props_empty().big_vclock,
        (opt_varint_piece(12, opt_u32_code(v)) + rest).len() < 0x1_0000_0000_0000_0000,
        ctx >= 2,
    ensures
        rpb_bucket_props_merge(cur, opt_varint_piece(12, opt_u32_code(v)) + rest, ctx) == rpb_bucket_props_merge((RpbBucketPropsView { big_vclock: v, ..cur }), rest, ctx),
{
    if v is Some {
        let f = varint_field(12, v->0 as u64);
        let s = opt_varint_piece(12, opt_u32_code(v)) + rest;
        lemma_field_roundtrip(f, rest, ctx);
        lemma_field_parse_len(s, ctx);
        assert(s.skip(field_bytes(f).len() as int) =~= rest);
        assert(rpb_bucket_props_apply(cur, f, ctx) == Some(RpbBucketPropsView { big_vclock: v, ..cur }));
    } else {
        assert(opt_varint_piece(12, opt_u32_code(v)) + rest =~= rest);
        assert((RpbBucketPropsView { big_vclock: v, ..cur }) == cur);
    }
}

proof fn lemma_rpb_bucket_props_field_small_vclock(cur: RpbBucketPropsView, v: Option<u32>, rest: Seq<u8>, ctx: nat)
    requires
        cur.small_vclock == rpb_bucket_props_empty().small_vclock,
        (opt_varint_piece(13, opt_u32_code(v)) + rest).len() < 0x1_0000_0000_0000_0000,
        ctx >= 2,
    ensures
        rpb_bucket_props_merge(cur, opt_varint_piece(13, opt_u32_code(v)) + rest, ctx) == rpb_bucket_props_merge((RpbBucketPropsView { small_vclock: v, ..cur }), rest, ctx),
{
    if v is Some {
        let f = varint_field(13, v->0 as u64);
        let s = opt_varint_piece(13, opt_u32_code(v)) + rest;
        lemma_field_roundtrip(f, rest, ctx);
        lemma_field_parse_len(s, ctx);
        assert(s.skip(field_bytes(f).len() as int) =~= rest);
        assert(rpb_bucket_props_apply(cur, f, ctx) == Some(RpbBucketPropsView { small_vclock: v, ..cur }));
    } else {
        assert(opt_varint_piece(13, opt_u32_code(v)) + rest =~= rest);
        assert((RpbBucketPropsView { small_vclock: v, ..cur }) == cur);
    }
}

proof fn lemma_rpb_bucket_props_field_pr(cur: RpbBucketPropsView, v: Option<u32>, rest: Seq<u8>, ctx: nat)
    requires
        cur.pr == rpb_bucket_props_empty().pr,
        (opt_varint_piece(14, opt_u32_code(v)) + rest).len() < 0x1_0000_0000_0000_0000,
        ctx >= 2,
    ensures
        rpb_bucket_props_merge(cur, opt_varint_piece(14, opt_u32_code(v)) + rest, ctx) == rpb_bucket_props_merge((RpbBucketPropsView { pr: v, ..cur }), rest, ctx),
{
    if v is Some {
        let f = varint_field(14, v->0 as u64);
        let s = opt_varint_piece(14, opt_u32_code(v)) + rest;
        lemma_field_roundtrip(f, rest, ctx);
        lemma_field_parse_len(s, ctx);
        assert(s.skip(field_bytes(f).len() as int) =~= rest);
        assert(rpb_bucket_props_apply(cur, f, ctx) == Some(RpbBucketPropsView { pr: v, ..cur }));
    } else {
        assert(opt_varint_piece(14, opt_u32_code(v)) + rest =~= rest);
        assert((RpbBucketPropsView { pr: v, ..cur }) == cur);
    }
}

proof fn lemma_rpb_bucket_props_field_r(cur: RpbBucketPropsView, v: Option<u32>, rest: Seq<u8>, ctx: nat)
    requires
        cur.r == rpb_bucket_props_empty().r,
        (opt_varint_piece(15, opt_u32_code(v)) + rest).len() < 0x1_0000_0000_0000_0000,
        ctx >= 2,
    ensures
        rpb_bucket_props_merge(cur, opt_varint_piece(15, opt_u32_code(v)) + rest, ctx) == rpb_bucket_props_merge((RpbBucketPropsView { r: v, ..cur }), rest, ctx),
{
    if v is Some {
        let f = varint_field(15, v->0 as u64);
        let s = opt_varint_piece(15, opt_u32_code(v)) + rest;
        lemma_field_roundtrip(f, rest, ctx);
        lemma_field_parse_len(s, ctx);
        assert(s.skip(field_bytes(f).len() as int) =~= rest);
        assert(rpb_bucket_props_apply(cur, f, ctx) == Some(RpbBucketPropsView { r: v, ..cur }));
    } else {
        assert(opt_varint_piece(15, opt_u32_code(v)) + rest =~= rest);
        assert((RpbBucketPropsView { r: v, ..cur }) == cur);
    }
}

proof fn lemma_rpb_bucket_props_field_w(cur: RpbBucketPropsView, v: Option<u32>, rest: Seq<u8>, ctx: nat)
    requires
        cur.w == rpb_bucket_props_empty().w,
        (opt_varint_piece(16, opt_u32_code(v)) + rest).len() < 0x1_0000_0000_0000_0000,
        ctx >= 2,
    ensures
        rpb_bucket_props_merge(cur, opt_varint_piece(16, opt_u32_code(v)) + rest, ctx) == rpb_bucket_props_merge((RpbBucketPropsView { w: v, ..cur }), rest, ctx),
{
    if v is Some {
        let f = varint_field(16, v->0 as u64);
        let s = opt_varint_piece(16, opt_u32_code(v)) + rest;
        lemma_field_roundtrip(f, rest, ctx);
        lemma_field_parse_len(s, ctx);
        assert(s.skip(field_bytes(f).len() as int) =~= rest);
        assert(rpb_bucket_props_apply(cur, f, ctx) == Some(RpbBucketPropsView { w: v, ..cur }));
    } else {
        assert(opt_varint_piece(16, opt_u32_code(v)) + rest =~= rest);
        assert((RpbBucketPropsView { w: v, ..cur }) == cur);
    }
}

proof fn lemma_rpb_bucket_props_field_pw(cur: RpbBucketPropsView, v: Option<u32>, rest: Seq<u8>, ctx: nat)
    requires
        cur.pw == rpb_bucket_props_empty().pw,
        (opt_varint_piece(17, opt_u32_code(v)) + rest).len() < 0x1_0000_0000_0000_0000,
        ctx >= 2,
    ensures
        rpb_bucket_props_merge(cur, opt_varint_piece(17, opt_u32_code(v)) + rest, ctx) == rpb_bucket_props_merge((RpbBucketPropsView { pw: v, ..cur }), rest, ctx),
{
    if v is Some {
        let f = varint_field(17, v->0 as u64);
        let s = opt_varint_piece(17, opt_u32_code(v)) + rest;
        lemma_field_roundtrip(f, rest, ctx);
        lemma_field_parse_len(s, ctx);
        assert(s.skip(field_bytes(f).len() as int) =~= rest);
        assert(rpb_bucket_props_apply(cur, f, ctx) == Some(RpbBucketPropsView { pw: v, ..cur }));
    } else {
        assert(opt_varint_piece(17, opt_u32_code(v)) + rest =~= rest);
        assert((RpbBucketPropsView { pw: v, ..cur }) == cur);
    }
}

proof fn lemma_rpb_bucket_props_field_dw(cur: RpbBucketPropsView, v: Option<u32>, rest: Seq<u8>, ctx: nat)
    requires
        cur.dw == rpb_bucket_props_empty().dw,
        (opt_varint_piece(18, opt_u32_code(v)) + rest).len() < 0x1_0000_0000_0000_0000,
        ctx >= 2,
    ensures
        rpb_bucket_props_merge(cur, opt_varint_piece(18, opt_u32_code(v)) + rest, ctx) == rpb_bucket_props_merge((RpbBucketPropsView { dw: v, ..cur }), rest, ctx),
{
    if v is Some {
        let f = varint_field(18, v->0 as u64);
        let s = opt_varint_piece(18, opt_u32_code(v)) + rest;
        lemma_field_roundtrip(f, rest, ctx);
        lemma_field_parse_len(s, ctx);
        assert(s.skip(field_bytes(f).len() as int) =~= rest);
        assert(rpb_bucket_props_apply(cur, f, ctx) == Some(RpbBucketPropsView { dw: v, ..cur }));
    } else {
        assert(opt_varint_piece(18, opt_u32_code(v)) + rest =~= rest);
        assert((RpbBucketPropsView { dw: v, ..cur }) == cur);
    }
}

proof fn lemma_rpb_bucket_props_field_rw(cur: RpbBucketPropsView, v: Option<u32>, rest: Seq<u8>, ctx: nat)
    requires
        cur.rw == rpb_bucket_props_empty().rw,
        (opt_varint_piece(19, opt_u32_code(v)) + rest).len() < 0x1_0000_0000_0000_0000,
        ctx >= 2,
    ensures
        rpb_bucket_props_merge(cur, opt_varint_piece(19, opt_u32_code(v)) + rest, ctx) == rpb_bucket_props_merge((RpbBucketPropsView { rw: v, ..cur }), rest, ctx),
{
    if v is Some {
        let f = varint_field(19, v->0 as u64);
        let s = opt_varint_piece(19, opt_u32_code(v)) + rest;
        lemma_field_roundtrip(f, rest, ctx);
        lemma_field_parse_len(s, ctx);
        assert(s.skip(field_bytes(f).len() as int) =~= rest);
        assert(rpb_bucket_props_apply(cur, f, ctx) == Some(RpbBucketPropsView { rw: v, ..cur }));
    } else {
        assert(opt_varint_piece(19, opt_u32_code(v)) + rest =~= rest);
        assert((RpbBucketPropsView { rw: v, ..cur }) == cur);
    }
}

proof fn lemma_rpb_bucket_props_field_basic_quorum(cur: RpbBucketPropsView, v: Option<bool>, rest: Seq<u8>, ctx: nat)
    requires
        cur.basic_quorum == rpb_bucket_props_empty().basic_quorum,
        (opt_varint_piece(20, opt_bool_code(v)) + rest).len() < 0x1_0000_0000_0000_0000,
        ctx >= 2,
    ensures
        rpb_bucket_props_merge(cur, opt_varint_piece(20, opt_bool_code(v)) + rest, ctx) == rpb_bucket_props_merge((RpbBucketPropsView { basic_quorum: v, ..cur }), rest, ctx),
{
    if v is Some {
        let f = varint_field(20, bool_code(v->0));
        let s = opt_varint_piece(20, opt_bool_code(v)) + rest;
        lemma_field_roundtrip(f, rest, ctx);
        lemma_field_parse_len(s, ctx);
        assert(s.skip(field_bytes(f).len() as int) =~= rest);
        assert(rpb_bucket_props_apply(cur, f, ctx) == Some(RpbBucketPropsView { basic_quorum: v, ..cur }));
    } else {
        assert(opt_varint_piece(20, opt_bool_code(v)) + rest =~= rest);
        assert((RpbBucketPropsView { basic_quorum: v, ..cur }) == cur);
    }
}

proof fn lemma_rpb_bucket_props_field_notfound_ok(cur: RpbBucketPropsView, v: Option<bool>, rest: Seq<u8>, ctx: nat)
    requires
        cur.notfound_ok == rpb_bucket_props_empty().notfound_ok,
        (opt_varint_piece(21, opt_bool_code(v)) + rest).len() < 0x1_0000_0000_0000_0000,
        ctx >= 2,
    ensures
        rpb_bucket_props_merge(cur, opt_varint_piece(21, opt_bool_code(v)) + rest, ctx) == rpb_bucket_props_merge((RpbBucketPropsView { notfound_ok: v, ..cur }), rest, ctx),
{
    if v is Some {
        let f = varint_field(21, bool_code(v->0));
        let s = opt_varint_piece(21, opt_bool_code(v)) + rest;
        lemma_field_roundtrip(f, rest, ctx);
        lemma_field_parse_len(s, ctx);
        assert(s.skip(field_bytes(f).len() as int) =~= rest);
        assert(rpb_bucket_props_apply(cur, f, ctx) == Some(RpbBucketPropsView { notfound_ok: v, ..cur }));
    } else {
        assert(opt_varint_piece(21, opt_bool_code(v)) + rest =~= rest);
        assert((RpbBucketPropsView { notfound_ok: v, ..cur }) == cur);
    }
}

proof fn lemma_rpb_bucket_props_field_backend(cur: RpbBucketPropsView, v: Option<Seq<u8>>, rest: Seq<u8>, ctx: nat)
    requires
        cur.backend == rpb_bucket_props_empty().backend,
        (opt_bytes_piece(22, v) + rest).len() < 0x1_0000_0000_0000_0000,
        ctx >= 2,
    ensures
        rpb_bucket_props_merge(cur, opt_bytes_piece(22, v) + rest, ctx) == rpb_bucket_props_merge((RpbBucketPropsView { backend: v, ..cur }), rest, ctx),
{
    if v is Some {
        let f = bytes_field(22, v->0);
        let s = opt_bytes_piece(22, v) + rest;
        lemma_field_roundtrip(f, rest, ctx);
        lemma_field_parse_len(s, ctx);
        assert(s.skip(field_bytes(f).len() as int) =~= rest);
        assert(rpb_bucket_props_apply(cur, f, ctx) == Some(RpbBucketPropsView { backend: v, ..cur }));
    } else {
        assert(opt_bytes_piece(22, v) + rest =~= rest);
        assert((RpbBucketPropsView { backend: v, ..cur }) == cur);
    }
}

proof fn lemma_rpb_bucket_props_field_search(cur: RpbBucketPropsView, v: Option<bool>, rest: Seq<u8>, ctx: nat)
    requires
        cur.search == rpb_bucket_props_empty().search,
        (opt_varint_piece(23, opt_bool_code(v)) + rest).len() < 0x1_0000_0000_0000_0000,
        ctx >= 2,
    ensures
        rpb_bucket_props_merge(cur, opt_varint_piece(23, opt_bool_code(v)) + rest, ctx) == rpb_bucket_props_merge((RpbBucketPropsView { search: v, ..cur }), rest, ctx),
{
    if v is Some {
        let f = varint_field(23, bool_code(v->0));
        let s = opt_varint_piece(23, opt_bool_code(v)) + rest;
        lemma_field_roundtrip(f, rest, ctx);
        lemma_field_parse_len(s, ctx);
        assert(s.skip(field_bytes(f).len() as int) =~= rest);
        assert(rpb_bucket_props_apply(cur, f, ctx) == Some(RpbBucketPropsView { search: v, ..cur }));
    } else {
        assert(opt_varint_piece(23, opt_bool_code(v)) + rest =~= rest);
        assert((RpbBucketPropsView { search: v, ..cur }) == cur);
    }
}

proof fn lemma_rpb_bucket_props_field_repl(cur: RpbBucketPropsView, v: Option<i32>, rest: Seq<u8>, ctx: nat)
    requires
        cur.repl == rpb_bucket_props_empty().repl,
        (opt_varint_piece(24, opt_i32_code(v)) + rest).len() < 0x1_0000_0000_0000_0000,
        ctx >= 2,
    ensures
        rpb_bucket_props_merge(cur, opt_varint_piece(24, opt_i32_code(v)) + rest, ctx) == rpb_bucket_props_merge((RpbBucketPropsView { repl: v, ..cur }), rest, ctx),
{
    if v is Some {
        let f = varint_field(24, i32_code(v->0));
        let s = opt_varint_piece(24, opt_i32_code(v)) + rest;
        lemma_field_roundtrip(f, rest, ctx);
        lemma_field_parse_len(s, ctx);
        assert(s.skip(field_bytes(f).len() as int) =~= rest);
        lemma_i32_code_roundtrip(v->0);
        assert(rpb_bucket_props_apply(cur, f, ctx) == Some(RpbBucketPropsView { repl: v, ..cur }));
    } else {
        assert(opt_varint_piece(24, opt_i32_code(v)) + rest =~= rest);
        assert((RpbBucketPropsView { repl: v, ..cur }) == cur);
    }
}

proof fn lemma_rpb_bucket_props_field_search_index(cur: RpbBucketPropsView, v: Option<Seq<u8>>, rest: Seq<u8>, ctx: nat)
    requires
        cur.search_index == rpb_bucket_props_empty().search_index,
        (opt_bytes_piece(25, v) + rest).len() < 0x1_0000_0000_0000_0000,
        ctx >= 2,
    ensures
        rpb_bucket_props_merge(cur, opt_bytes_piece(25, v) + rest, ctx) == rpb_bucket_props_merge((RpbBucketPropsView { search_index: v, ..cur }), rest, ctx),
{
    if v is Some {
        let f = bytes_field(25, v->0);
        let s = opt_bytes_piece(25, v) + rest;
        lemma_field_roundtrip(f, rest, ctx);
        lemma_field_parse_len(s, ctx);
        assert(s.skip(field_bytes(f).len() as int) =~= rest);
        assert(rpb_bucket_props_apply(cur, f, ctx) == Some(RpbBucketPropsView { search_index: v, ..cur }));
    } else {
        assert(opt_bytes_piece(25, v) + rest =~= rest);
        assert((RpbBucketPropsView { search_index: v, ..cur }) == cur);
    }
}

proof fn lemma_rpb_bucket_props_field_datatype(cur: RpbBucketPropsView, v: Option<Seq<u8>>, rest: Seq<u8>, ctx: nat)
    requires
        cur.datatype == rpb_bucket_props_empty().datatype,
        (opt_bytes_piece(26, v) + rest).len() < 0x1_0000_0000_0000_0000,
        ctx >= 2,
    ensures
        rpb_bucket_props_merge(cur, opt_bytes_piece(26, v) + rest, ctx) == rpb_bucket_props_merge((RpbBucketPropsView { datatype: v, ..cur }), rest, ctx),
{
    if v is Some {
        let f = bytes_field(26, v->0);
        let s = opt_bytes_piece(26, v) + rest;
        lemma_field_roundtrip(f, rest, ctx);
        lemma_field_parse_len(s, ctx);
        assert(s.skip(field_bytes(f).len() as int) =~= rest);
        assert(rpb_bucket_props_apply(cur, f, ctx) == Some(RpbBucketPropsView { datatype: v, ..cur }));
    } else {
        assert(opt_bytes_piece(26, v) + rest =~= rest);
        assert((RpbBucketPropsView { datatype: v, ..cur }) == cur);
    }
}

proof fn lemma_rpb_bucket_props_field_consistent(cur: RpbBucketPropsView, v: Option<bool>, rest: Seq<u8>, ctx: nat)
    requires
        cur.consistent == rpb_bucket_props_empty().consistent,
        (opt_varint_piece(27, opt_bool_code(v)) + rest).len() < 0x1_0000_0000_0000_0000,
        ctx >= 2,
    ensures
        rpb_bucket_props_merge(cur, opt_varint_piece(27, opt_bool_code(v)) + rest, ctx) == rpb_bucket_props_merge((RpbBucketPropsView { consistent: v, ..cur }), rest, ctx),
{
    if v is Some {
        let f = varint_field(27, bool_code(v->0));
        let s = opt_varint_piece(27, opt_bool_code(v)) + rest;
        lemma_field_roundtrip(f, rest, ctx);
        lemma_field_parse_len(s, ctx);
        assert(s.skip(field_bytes(f).len() as int) =~= rest);
        assert(rpb_bucket_props_apply(cur, f, ctx) == Some(RpbBucketPropsView { consistent: v, ..cur }));
    } else {
        assert(opt_varint_piece(27, opt_bool_code(v)) + rest =~= rest);
        assert((RpbBucketPropsView { consistent: v, ..cur }) == cur);
    }
}

proof fn lemma_rpb_bucket_props_field_write_once(cur: RpbBucketPropsView, v: Option<bool>, rest: Seq<u8>, ctx: nat)
    requires
        cur.write_once == rpb_bucket_props_empty().write_once,
        (opt_varint_piece(28, opt_bool_code(v)) + rest).len() < 0x1_0000_0000_0000_0000,
        ctx >= 2,
    ensures
        rpb_bucket_props_merge(cur, opt_varint_piece(28, opt_bool_code(v)) + rest, ctx) == rpb_bucket_props_merge((RpbBucketPropsView { write_once: v, ..cur }), rest, ctx),
{
    if v is Some {
        let f = varint_field(28, bool_code(v->0));
        let s = opt_varint_piece(28, opt_bool_code(v)) + rest;
        lemma_field_roundtrip(f, rest, ctx);
        lemma_field_parse_len(s, ctx);
        assert(s.skip(field_bytes(f).len() as int) =~= rest);
        assert(rpb_bucket_props_apply(cur, f, ctx) == Some(RpbBucketPropsView { write_once: v, ..cur }));
    } else {
        assert(opt_varint_piece(28, opt_bool_code(v)) + rest =~= rest);
        assert((RpbBucketPropsView { write_once: v, ..cur }) == cur);
    }
}

proof fn lemma_rpb_bucket_props_field_hll_precision(cur: RpbBucketPropsView, v: Option<u32>, rest: Seq<u8>, ctx: nat)
    requires
        cur.hll_precision == rpb_bucket_props_empty().hll_precision,
        (opt_varint_piece(29, opt_u32_code(v)) + rest).len() < 0x1_0000_0000_0000_0000,
        ctx >= 2,
    ensures
        rpb_bucket_props_merge(cur, opt_varint_piece(29, opt_u32_code(v)) + rest, ctx) == rpb_bucket_props_merge((RpbBucketPropsView { hll_precision: v, ..cur }), rest, ctx),
{
    if v is Some {
        let f = varint_field(29, v->0 as u64);
        let s = opt_varint_piece(29, opt_u32_code(v)) + rest;
        lemma_field_roundtrip(f, rest, ctx);
        lemma_field_parse_len(s, ctx);
        assert(s.skip(field_bytes(f).len() as int) =~= rest);
        assert(rpb_bucket_props_apply(cur, f, ctx) == Some(RpbBucketPropsView { hll_precision: v, ..cur }));
    } else {
        assert(opt_varint_piece(29, opt_u32_code(v)) + rest =~= rest);
        assert((RpbBucketPropsView { hll_precision: v, ..cur }) == cur);
    }
}

proof fn lemma_rpb_bucket_props_field_ttl(cur: RpbBucketPropsView, v: Option<u32>, rest: Seq<u8>, ctx: nat)
    requires
        cur.ttl == rpb_bucket_props_empty().ttl,
        (opt_varint_piece(30, opt_u32_code(v)) + rest).len() < 0x1_0000_0000_0000_0000,
        ctx >= 2,
    ensures
        rpb_bucket_props_merge(cur, opt_varint_piece(30, opt_u32_code(v)) + rest, ctx) == rpb_bucket_props_merge((RpbBucketPropsView { ttl: v, ..cur }), rest, ctx),
{
    if v is Some {
        let f = varint_field(30, v->0 as u64);
        let s = opt_varint_piece(30, opt_u32_code(v)) + rest;
        lemma_field_roundtrip(f, rest, ctx);
        lemma_field_parse_len(s, ctx);
        assert(s.skip(field_bytes(f).len() as int) =~= rest);
        assert(rpb_bucket_props_apply(cur, f, ctx) == Some(RpbBucketPropsView { ttl: v, ..cur }));
    } else {
        assert(opt_varint_piece(30, opt_u32_code(v)) + rest =~= rest);
        assert((RpbBucketPropsView { ttl: v, ..cur }) == cur);
    }
}

/// A `RpbBucketProps` written to bytes merges back into an empty one as itself,
/// with an allowance of at least 2.
#[verifier::rlimit(50)]
pub proof fn lemma_rpb_bucket_props_reads_back(m: RpbBucketPropsView, ctx: nat)
    requires
        rpb_bucket_props_bytes(m).len() < 0x1_0000_0000_0000_0000,
        ctx >= 2,
    ensures
        rpb_bucket_props_merge(rpb_bucket_props_empty(), rpb_bucket_props_bytes(m), ctx) == Some(m),
{
    let p0 = opt_varint_piece(1, opt_u32_code(m.n_val));
    let p1 = opt_varint_piece(2, opt_bool_code(m.allow_mult));
    let p2 = opt_varint_piece(3, opt_bool_code(m.last_write_wins));
    let p3 = rep_bytes_piece(4, m.precommit.map_values(|s: RpbCommitHookView| rpb_commit_hook_bytes(s)));
    let p4 = opt_varint_piece(5, opt_bool_code(m.has_precommit));
    let p5 = rep_bytes_piece(6, m.postcommit.map_values(|s: RpbCommitHookView| rpb_commit_hook_bytes(s)));
    let p6 = opt_varint_piece(7, opt_bool_code(m.has_postcommit));
    let p7 = opt_bytes_piece(8, match m.chash_keyfun { Some(s) => Some(rpb_mod_fun_bytes(s)), None => None });
    let p8 = opt_bytes_piece(9, match m.linkfun { Some(s) => Some(rpb_mod_fun_bytes(s)), None => None });
    let p9 = opt_varint_piece(10, opt_u32_code(m.old_vclock));
    let p10 = opt_varint_piece(11, opt_u32_code(m.young_vclock));
    let p11 = opt_varint_piece(12, opt_u32_code(m.big_vclock));
    let p12 = opt_varint_piece(13, opt_u32_code(m.small_vclock));
    let p13 = opt_varint_piece(14, opt_u32_code(m.pr));
    let p14 = opt_varint_piece(15, opt_u32_code(m.r));
    let p15 = opt_varint_piece(16, opt_u32_code(m.w));
    let p16 = opt_varint_piece(17, opt_u32_code(m.pw));
    let p17 = opt_varint_piece(18, opt_u32_code(m.dw));
    let p18 = opt_varint_piece(19, opt_u32_code(m.rw));
    let p19 = opt_varint_piece(20, opt_bool_code(m.basic_quorum));
    let p20 = opt_varint_piece(21, opt_bool_code(m.notfound_ok));
    let p21 = opt_bytes_piece(22, m.backend);
    let p22 = opt_varint_piece(23, opt_bool_code(m.search));
    let p23 = opt_varint_piece(24, opt_i32_code(m.repl));
    let p24 = opt_bytes_piece(25, m.search_index);
    let p25 = opt_bytes_piece(26, m.datatype);
    let p26 = opt_varint_piece(27, opt_bool_code(m.consistent));
    let p27 = opt_varint_piece(28, opt_bool_code(m.write_once));
    let p28 = opt_varint_piece(29, opt_u32_code(m.hll_precision));
    let p29 = opt_varint_piece(30, opt_u32_code(m.ttl));
    let s30 = Seq::<u8>::empty();
    let s29 = p29 + s30;
    let s28 = p28 + s29;
    let s27 = p27 + s28;
    let s26 = p26 + s27;
    let s25 = p25 + s26;
    let s24 = p24 + s25;
    let s23 = p23 + s24;
    let s22 = p22 + s23;
    let s21 = p21 + s22;
    let s20 = p20 + s21;
    let s19 = p19 + s20;
    let s18 = p18 + s19;
    let s17 = p17 + s18;
    let s16 = p16 + s17;
    let s15 = p15 + s16;
    let s14 = p14 + s15;
    let s13 = p13 + s14;
    let s12 = p12 + s13;
    let s11 = p11 + s12;
    let s10 = p10 + s11;
    let s9 = p9 + s10;
    let s8 = p8 + s9;
    let s7 = p7 + s8;
    let s6 = p6 + s7;
    let s5 = p5 + s6;
    let s4 = p4 + s5;
    let s3 = p3 + s4;
    let s2 = p2 + s3;
    let s1 = p1 + s2;
    let s0 = p0 + s1;
    assert(rpb_bucket_props_bytes(m) == s0) by {
        lemma_concat_assoc(p0, p1, s2);
        lemma_concat_assoc(p0 + p1, p2, s3);
        lemma_concat_assoc(p0 + p1 + p2, p3, s4);
        lemma_concat_assoc(p0 + p1 + p2 + p3, p4, s5);
        lemma_concat_assoc(p0 + p1 + p2 + p3 + p4, p5, s6);
        lemma_concat_assoc(p0 + p1 + p2 + p3 + p4 + p5, p6, s7);
        lemma_concat_assoc(p0 + p1 + p2 + p3 + p4 + p5 + p6, p7, s8);
        lemma_concat_assoc(p0 + p1 + p2 + p3 + p4 + p5 + p6 + p7, p8, s9);
        lemma_concat_assoc(p0 + p1 + p2 + p3 + p4 + p5 + p6 + p7 + p8, p9, s10);
        lemma_concat_assoc(p0 + p1 + p2 + p3 + p4 + p5 + p6 + p7 + p8 + p9, p10, s11);
        lemma_concat_assoc(p0 + p1 + p2 + p3 + p4 + p5 + p6 + p7 + p8 + p9 + p10, p11, s12);
        lemma_concat_assoc(p0 + p1 + p2 + p3 + p4 + p5 + p6 + p7 + p8 + p9 + p10 + p11, p12, s13);
        lemma_concat_assoc(p0 + p1 + p2 + p3 + p4 + p5 + p6 + p7 + p8 + p9 + p10 + p11 + p12, p13, s14);
        lemma_concat_assoc(p0 + p1 + p2 + p3 + p4 + p5 + p6 + p7 + p8 + p9 + p10 + p11 + p12 + p13, p14, s15);
        lemma_concat_assoc(p0 + p1 + p2 + p3 + p4 + p5 + p6 + p7 + p8 + p9 + p10 + p11 + p12 + p13 + p14, p15, s16);
        lemma_concat_assoc(p0 + p1 + p2 + p3 + p4 + p5 + p6 + p7 + p8 + p9 + p10 + p11 + p12 + p13 + p14 + p15, p16, s17);
        lemma_concat_assoc(p0 + p1 + p2 + p3 + p4 + p5 + p6 + p7 + p8 + p9 + p10 + p11 + p12 + p13 + p14 + p15 + p16, p17, s18);
        lemma_concat_assoc(p0 + p1 + p2 + p3 + p4 + p5 + p6 + p7 + p8 + p9 + p10 + p11 + p12 + p13 + p14 + p15 + p16 + p17, p18, s19);
        lemma_concat_assoc(p0 + p1 + p2 + p3 + p4 + p5 + p6 + p7 + p8 + p9 + p10 + p11 + p12 + p13 + p14 + p15 + p16 + p17 + p18, p19, s20);
        lemma_concat_assoc(p0 + p1 + p2 + p3 + p4 + p5 + p6 + p7 + p8 + p9 + p10 + p11 + p12 + p13 + p14 + p15 + p16 + p17 + p18 + p19, p20, s21);
        lemma_concat_assoc(p0 + p1 + p2 + p3 + p4 + p5 + p6 + p7 + p8 + p9 + p10 + p11 + p12 + p13 + p14 + p15 + p16 + p17 + p18 + p19 + p20, p21, s22);
        lemma_concat_assoc(p0 + p1 + p2 + p3 + p4 + p5 + p6 + p7 + p8 + p9 + p10 + p11 + p12 + p13 + p14 + p15 + p16 + p17 + p18 + p19 + p20 + p21, p22, s23);
        lemma_concat_assoc(p0 + p1 + p2 + p3 + p4 + p5 + p6 + p7 + p8 + p9 + p10 + p11 + p12 + p13 + p14 + p15 + p16 + p17 + p18 + p19 + p20 + p21 + p22, p23, s24);
        lemma_concat_assoc(p0 + p1 + p2 + p3 + p4 + p5 + p6 + p7 + p8 + p9 + p10 + p11 + p12 + p13 + p14 + p15 + p16 + p17 + p18 + p19 + p20 + p21 + p22 + p23, p24, s25);
        lemma_concat_assoc(p0 + p1 + p2 + p3 + p4 + p5 + p6 + p7 + p8 + p9 + p10 + p11 + p12 + p13 + p14 + p15 + p16 + p17 + p18 + p19 + p20 + p21 + p22 + p23 + p24, p25, s26);
        lemma_concat_assoc(p0 + p1 + p2 + p3 + p4 + p5 + p6 + p7 + p8 + p9 + p10 + p11 + p12 + p13 + p14 + p15 + p16 + p17 + p18 + p19 + p20 + p21 + p22 + p23 + p24 + p25, p26, s27);
        lemma_concat_assoc(p0 + p1 + p2 + p3 + p4 + p5 + p6 + p7 + p8 + p9 + p10 + p11 + p12 + p13 + p14 + p15 + p16 + p17 + p18 + p19 + p20 + p21 + p22 + p23 + p24 + p25 + p26, p27, s28);
        lemma_concat_assoc(p0 + p1 + p2 + p3 + p4 + p5 + p6 + p7 + p8 + p9 + p10 + p11 + p12 + p13 + p14 + p15 + p16 + p17 + p18 + p19 + p20 + p21 + p22 + p23 + p24 + p25 + p26 + p27, p28, s29);
        lemma_concat_assoc(p0 + p1 + p2 + p3 + p4 + p5 + p6 + p7 + p8 + p9 + p10 + p11 + p12 + p13 + p14 + p15 + p16 + p17 + p18 + p19 + p20 + p21 + p22 + p23 + p24 + p25 + p26 + p27 + p28, p29, s30);
        assert(p0 + p1 + p2 + p3 + p4 + p5 + p6 + p7 + p8 + p9 + p10 + p11 + p12 + p13 + p14 + p15 + p16 + p17 + p18 + p19 + p20 + p21 + p22 + p23 + p24 + p25 + p26 + p27 + p28 + p29 + s30 =~= p0 + p1 + p2 + p3 + p4 + p5 + p6 + p7 + p8 + p9 + p10 + p11 + p12 + p13 + p14 + p15 + p16 + p17 + p18 + p19 + p20 + p21 + p22 + p23 + p24 + p25 + p26 + p27 + p28 + p29);
    }
    let m0 = rpb_bucket_props_empty();
    let m1 = RpbBucketPropsView { n_val: m.n_val, ..m0 };
    let m2 = RpbBucketPropsView { allow_mult: m.allow_mult, ..m1 };
    let m3 = RpbBucketPropsView { last_write_wins: m.last_write_wins, ..m2 };
    let m4 = RpbBucketPropsView { precommit: m.precommit, ..m3 };
    let m5 = RpbBucketPropsView { has_precommit: m.has_precommit, ..m4 };
    let m6 = RpbBucketPropsView { postcommit: m.postcommit, ..m5 };
    let m7 = RpbBucketPropsView { has_postcommit: m.has_postcommit, ..m6 };
    let m8 = RpbBucketPropsView { chash_keyfun: m.chash_keyfun, ..m7 };
    let m9 = RpbBucketPropsView { linkfun: m.linkfun, ..m8 };
    let m10 = RpbBucketPropsView { old_vclock: m.old_vclock, ..m9 };
    let m11 = RpbBucketPropsView { young_vclock: m.young_vclock, ..m10 };
    let m12 = RpbBucketPropsView { big_vclock: m.big_vclock, ..m11 };
    let m13 = RpbBucketPropsView { small_vclock: m.small_vclock, ..m12 };
    let m14 = RpbBucketPropsView { pr: m.pr, ..m13 };
    let m15 = RpbBucketPropsView { r: m.r, ..m14 };
    let m16 = RpbBucketPropsView { w: m.w, ..m15 };
    let m17 = RpbBucketPropsView { pw: m.pw, ..m16 };
    let m18 = RpbBucketPropsView { dw: m.dw, ..m17 };
    let m19 = RpbBucketPropsView { rw: m.rw, ..m18 };
    let m20 = RpbBucketPropsView { basic_quorum: m.basic_quorum, ..m19 };
    let m21 = RpbBucketPropsView { notfound_ok: m.notfound_ok, ..m20 };
    let m22 = RpbBucketPropsView { backend: m.backend, ..m21 };
    let m23 = RpbBucketPropsView { search: m.search, ..m22 };
    let m24 = RpbBucketPropsView { repl: m.repl, ..m23 };
    let m25 = RpbBucketPropsView { search_index: m.search_index, ..m24 };
    let m26 = RpbBucketPropsView { datatype: m.datatype, ..m25 };
    let m27 = RpbBucketPropsView { consistent: m.consistent, ..m26 };
    let m28 = RpbBucketPropsView { write_once: m.write_once, ..m27 };
    let m29 = RpbBucketPropsView { hll_precision: m.hll_precision, ..m28 };
    let m30 = RpbBucketPropsView { ttl: m.ttl, ..m29 };
    lemma_rpb_bucket_props_field_n_val(m0, m.n_val, s1, ctx);
    lemma_rpb_bucket_props_field_allow_mult(m1, m.allow_mult, s2, ctx);
    lemma_rpb_bucket_props_field_last_write_wins(m2, m.last_write_wins, s3, ctx);
    lemma_rpb_bucket_props_rep_precommit(m3, m.precommit, s4, ctx);
    assert(m3.precommit + m.precommit =~= m.precommit);
    lemma_rpb_bucket_props_field_has_precommit(m4, m.has_precommit, s5, ctx);
    lemma_rpb_bucket_props_rep_postcommit(m5, m.postcommit, s6, ctx);
    assert(m5.postcommit + m.postcommit =~= m.postcommit);
    lemma_rpb_bucket_props_field_has_postcommit(m6, m.has_postcommit, s7, ctx);
    lemma_rpb_bucket_props_field_chash_keyfun(m7, m.chash_keyfun, s8, ctx);
    lemma_rpb_bucket_props_field_linkfun(m8, m.linkfun, s9, ctx);
    lemma_rpb_bucket_props_field_old_vclock(m9, m.old_vclock, s10, ctx);
    lemma_rpb_bucket_props_field_young_vclock(m10, m.young_vclock, s11, ctx);
    lemma_rpb_bucket_props_field_big_vclock(m11, m.big_vclock, s12, ctx);
    lemma_rpb_bucket_props_field_small_vclock(m12, m.small_vclock, s13, ctx);
    lemma_rpb_bucket_props_field_pr(m13, m.pr, s14, ctx);
    lemma_rpb_bucket_props_field_r(m14, m.r, s15, ctx);
    lemma_rpb_bucket_props_field_w(m15, m.w, s16, ctx);
    lemma_rpb_bucket_props_field_pw(m16, m.pw, s17, ctx);
    lemma_rpb_bucket_props_field_dw(m17, m.dw, s18, ctx);
    lemma_rpb_bucket_props_field_rw(m18, m.rw, s19, ctx);
    lemma_rpb_bucket_props_field_basic_quorum(m19, m.basic_quorum, s20, ctx);
    lemma_rpb_bucket_props_field_notfound_ok(m20, m.notfound_ok, s21, ctx);
    lemma_rpb_bucket_props_field_backend(m21, m.backend, s22, ctx);
    lemma_rpb_bucket_props_field_search(m22, m.search, s23, ctx);
    lemma_rpb_bucket_props_field_repl(m23, m.repl, s24, ctx);
    lemma_rpb_bucket_props_field_search_index(m24, m.search_index, s25, ctx);
    lemma_rpb_bucket_props_field_datatype(m25, m.datatype, s26, ctx);
    lemma_rpb_bucket_props_field_consistent(m26, m.consistent, s27, ctx);
    lemma_rpb_bucket_props_field_write_once(m27, m.write_once, s28, ctx);
    lemma_rpb_bucket_props_field_hll_precision(m28, m.hll_precision, s29, ctx);
    lemma_rpb_bucket_props_field_ttl(m29, m.ttl, s30, ctx);
    assert(m30 == m);
}

/// A `RpbBucketProps` written to bytes reads back as itself.
pub proof fn lemma_rpb_bucket_props_roundtrip(m: RpbBucketPropsView)
    requires
        rpb_bucket_props_bytes(m).len() < 0x1_0000_0000_0000_0000,
    ensures
        rpb_bucket_props_decode(rpb_bucket_props_bytes(m)) == Some(m),
{
    lemma_rpb_bucket_props_reads_back(m, 100);
}

proof fn lemma_rpb_get_bucket_req_field_bucket(cur: RpbGetBucketReqView, v: Seq<u8>, rest: Seq<u8>, ctx: nat)
    requires
        cur.bucket == rpb_get_bucket_req_empty().bucket,
        (bytes_piece(1, v) + rest).len() < 0x1_0000_0000_0000_0000,
        ctx >= 0,
    ensures
        rpb_get_bucket_req_merge(cur, bytes_piece(1, v) + rest, ctx) == rpb_get_bucket_req_merge((RpbGetBucketReqView { bucket: v, ..cur }), rest, ctx),
{
    let f = bytes_field(1, v);
    let s = bytes_piece(1, v) + rest;
    lemma_field_roundtrip(f, rest, ctx);
    lemma_field_parse_len(s, ctx);
    assert(s.skip(field_bytes(f).len() as int) =~= rest);
    assert(rpb_get_bucket_req_apply(cur, f, ctx) == Some(RpbGetBucketReqView { bucket: v, ..cur }));
}

proof fn lemma_rpb_get_bucket_req_field_bucket_type(cur: RpbGetBucketReqView, v: Option<Seq<u8>>, rest: Seq<u8>, ctx: nat)
    requires
        cur.bucket_type == rpb_get_bucket_req_empty().bucket_type,
        (opt_bytes_piece(2, v) + rest).len() < 0x1_0000_0000_0000_0000,
        ctx >= 0,
    ensures
        rpb_get_bucket_req_merge(cur, opt_bytes_piece(2, v) + rest, ctx) == rpb_get_bucket_req_merge((RpbGetBucketReqView { bucket_type: v, ..cur }), rest, ctx),
{
    if v is Some {
        let f = bytes_field(2, v->0);
        let s = opt_bytes_piece(2, v) + rest;
        lemma_field_roundtrip(f, rest, ctx);
        lemma_field_parse_len(s, ctx);
        assert(s.skip(field_bytes(f).len() as int) =~= rest);
        assert(rpb_get_bucket_req_apply(cur, f, ctx) == Some(RpbGetBucketReqView { bucket_type: v, ..cur }));
    } else {
        assert(opt_bytes_piece(2, v) + rest =~= rest);
        assert((RpbGetBucketReqView { bucket_type: v, ..cur }) == cur);
    }
}

/// A `RpbGetBucketReq` written to bytes merges back into an empty one as itself,
/// with an allowance of at least 0.
#[verifier::rlimit(50)]
pub proof fn lemma_rpb_get_bucket_req_reads_back(m: RpbGetBucketReqView, ctx: nat)
    requires
        rpb_get_bucket_req_bytes(m).len() < 0x1_0000_0000_0000_0000,
        ctx >= 0,
    ensures
        rpb_get_bucket_req_merge(rpb_get_bucket_req_empty(), rpb_get_bucket_req_bytes(m), ctx) == Some(m),
{
    let p0 = bytes_piece(1, m.bucket);
    let p1 = opt_bytes_piece(2, m.bucket_type);
    let s2 = Seq::<u8>::empty();
    let s1 = p1 + s2;
    let s0 = p0 + s1;
    assert(rpb_get_bucket_req_bytes(m) == s0) by {
        lemma_concat_assoc(p0, p1, s2);
        assert(p0 + p1 + s2 =~= p0 + p1);
    }
    let m0 = rpb_get_bucket_req_empty();
    let m1 = RpbGetBucketReqView { bucket: m.bucket, ..m0 };
    let m2 = RpbGetBucketReqView { bucket_type: m.bucket_type, ..m1 };
    lemma_rpb_get_bucket_req_field_bucket(m0, m.bucket, s1, ctx);
    lemma_rpb_get_bucket_req_field_bucket_type(m1, m.bucket_type, s2, ctx);
    assert(m2 == m);
}

/// A `RpbGetBucketReq` written to bytes reads back as itself.
pub proof fn lemma_rpb_get_bucket_req_roundtrip(m: RpbGetBucketReqView)
    requires
        rpb_get_bucket_req_bytes(m).len() < 0x1_0000_0000_0000_0000,
    ensures
        rpb_get_bucket_req_decode(rpb_get_bucket_req_bytes(m)) == Some(m),
{
    lemma_rpb_get_bucket_req_reads_back(m, 100);
}

#[verifier::rlimit(50)]
proof fn lemma_rpb_get_bucket_resp_field_props(cur: RpbGetBucketRespView, v: RpbBucketPropsView, rest: Seq<u8>, ctx: nat)
    requires
        cur.props == rpb_get_bucket_resp_empty().props,
        (bytes_piece(1, rpb_bucket_props_bytes(v)) + rest).len() < 0x1_0000_0000_0000_0000,
        ctx >= 3,
    ensures
        rpb_get_bucket_resp_merge(cur, bytes_piece(1, rpb_bucket_props_bytes(v)) + rest, ctx) == rpb_get_bucket_resp_merge((RpbGetBucketRespView { props: v, ..cur }), rest, ctx),
{
    let f = bytes_field(1, rpb_bucket_props_bytes(v));
    let s = bytes_piece(1, rpb_bucket_props_bytes(v)) + rest;
    lemma_field_roundtrip(f, rest, ctx);
    lemma_field_parse_len(s, ctx);
    assert(s.skip(field_bytes(f).len() as int) =~= rest);
    lemma_rpb_bucket_props_reads_back(v, (ctx - 1) as nat);
    assert(rpb_get_bucket_resp_apply(cur, f, ctx) == Some(RpbGetBucketRespView { props: v, ..cur }));
}

/// A `RpbGetBucketResp` written to bytes merges back into an empty one as itself,
/// with an allowance of at least 3.
#[verifier::rlimit(50)]
pub proof fn lemma_rpb_get_bucket_resp_reads_back(m: RpbGetBucketRespView, ctx: nat)
    requires
        rpb_get_bucket_resp_bytes(m).len() < 0x1_0000_0000_0000_0000,
        ctx >= 3,
    ensures
        rpb_get_bucket_resp_merge(rpb_get_bucket_resp_empty(), rpb_get_bucket_resp_bytes(m), ctx) == Some(m),
{
    let p0 = bytes_piece(1, rpb_bucket_props_bytes(m.props));
    let s1 = Seq::<u8>::empty();
    let s0 = p0 + s1;
    assert(rpb_get_bucket_resp_bytes(m) == s0) by {
        assert(p0 + s1 =~= p0);
    }
    let m0 = rpb_get_bucket_resp_empty();
    let m1 = RpbGetBucketRespView { props: m.props, ..m0 };
    lemma_rpb_get_bucket_resp_field_props(m0, m.props, s1, ctx);
    assert(m1 == m);
}

/// A `RpbGetBucketResp` written to bytes reads back as itself.
pub proof fn lemma_rpb_get_bucket_resp_roundtrip(m: RpbGetBucketRespView)
    requires
        rpb_get_bucket_resp_bytes(m).len() < 0x1_0000_0000_0000_0000,
    ensures
        rpb_get_bucket_resp_decode(rpb_get_bucket_resp_bytes(m)) == Some(m),
{
    lemma_rpb_get_bucket_resp_reads_back(m, 100);
}

proof fn lemma_rpb_set_bucket_req_field_bucket(cur: RpbSetBucketReqView, v: Seq<u8>, rest: Seq<u8>, ctx: nat)
    requires
        cur.bucket == rpb_set_bucket_req_empty().bucket,
        (bytes_piece(1, v) + rest).len() < 0x1_0000_0000_0000_0000,
        ctx >= 3,
    ensures
        rpb_set_bucket_req_merge(cur, bytes_piece(1, v) + rest, ctx) == rpb_set_bucket_req_merge((RpbSetBucketReqView { bucket: v, ..cur }), rest, ctx),
{
    let f = bytes_field(1, v);
    let s = bytes_piece(1, v) + rest;
    lemma_field_roundtrip(f, rest, ctx);
    lemma_field_parse_len(s, ctx);
    assert(s.skip(field_bytes(f).len() as int) =~= rest);
    assert(rpb_set_bucket_req_apply(cur, f, ctx) == Some(RpbSetBucketReqView { bucket: v, ..cur }));
}

#[verifier::rlimit(50)]
proof fn lemma_rpb_set_bucket_req_field_props(cur: RpbSetBucketReqView, v: RpbBucketPropsView, rest: Seq<u8>, ctx: nat)
    requires
        cur.props == rpb_set_bucket_req_empty().props,
        (bytes_piece(2, rpb_bucket_props_bytes(v)) + rest).len() < 0x1_0000_0000_0000_0000,
        ctx >= 3,
    ensures
        rpb_set_bucket_req_merge(cur, bytes_piece(2, rpb_bucket_props_bytes(v)) + rest, ctx) == rpb_set_bucket_req_merge((RpbSetBucketReqView { props: v, ..cur }), rest, ctx),
{
    let f = bytes_field(2, rpb_bucket_props_bytes(v));
    let s = bytes_piece(2, rpb_bucket_props_bytes(v)) + rest;
    lemma_field_roundtrip(f, rest, ctx);
    lemma_field_parse_len(s, ctx);
    assert(s.skip(field_bytes(f).len() as int) =~= rest);
    lemma_rpb_bucket_props_reads_back(v, (ctx - 1) as nat);
    assert(rpb_set_bucket_req_apply(cur, f, ctx) == Some(RpbSetBucketReqView { props: v, ..cur }));
}

proof fn lemma_rpb_set_bucket_req_field_bucket_type(cur: RpbSetBucketReqView, v: Option<Seq<u8>>, rest: Seq<u8>, ctx: nat)
    requires
        cur.bucket_type == rpb_set_bucket_req_empty().bucket_type,
        (opt_bytes_piece(3, v) + rest).len() < 0x1_0000_0000_0000_0000,
        ctx >= 3,
    ensures
        rpb_set_bucket_req_merge(cur, opt_bytes_piece(3, v) + rest, ctx) == rpb_set_bucket_req_merge((RpbSetBucketReqView { bucket_type: v, ..cur }), rest, ctx),
{
    if v is Some {
        let f = bytes_field(3, v->0);
        let s = opt_bytes_piece(3, v) + rest;
        lemma_field_roundtrip(f, rest, ctx);
        lemma_field_parse_len(s, ctx);
        assert(s.skip(field_bytes(f).len() as int) =~= rest);
        assert(rpb_set_bucket_req_apply(cur, f, ctx) == Some(RpbSetBucketReqView { bucket_type: v, ..cur }));
    } else {
        assert(opt_bytes_piece(3, v) + rest =~= rest);
        assert((RpbSetBucketReqView { bucket_type: v, ..cur }) == cur);
    }
}

/// A `RpbSetBucketReq` written to bytes merges back into an empty one as itself,
/// with an allowance of at least 3.
#[verifier::rlimit(50)]
pub proof fn lemma_rpb_set_bucket_req_reads_back(m: RpbSetBucketReqView, ctx: nat)
    requires
        rpb_set_bucket_req_bytes(m).len() < 0x1_0000_0000_0000_0000,
        ctx >= 3,
    ensures
        rpb_set_bucket_req_merge(rpb_set_bucket_req_empty(), rpb_set_bucket_req_bytes(m), ctx) == Some(m),
{
    let p0 = bytes_piece(1, m.bucket);
    let p1 = bytes_piece(2, rpb_bucket_props_bytes(m.props));
    let p2 = opt_bytes_piece(3, m.bucket_type);
    let s3 = Seq::<u8>::empty();
    let s2 = p2 + s3;
    let s1 = p1 + s2;
    let s0 = p0 + s1;
    assert(rpb_set_bucket_req_bytes(m) == s0) by {
        lemma_concat_assoc(p0, p1, s2);
        lemma_concat_assoc(p0 + p1, p2, s3);
        assert(p0 + p1 + p2 + s3 =~= p0 + p1 + p2);
    }
    let m0 = rpb_set_bucket_req_empty();
    let m1 = RpbSetBucketReqView { bucket: m.bucket, ..m0 };
    let m2 = RpbSetBucketReqView { props: m.props, ..m1 };
    let m3 = RpbSetBucketReqView { bucket_type: m.bucket_type, ..m2 };
    lemma_rpb_set_bucket_req_field_bucket(m0, m.bucket, s1, ctx);
    lemma_rpb_set_bucket_req_field_props(m1, m.props, s2, ctx);
    lemma_rpb_set_bucket_req_field_bucket_type(m2, m.bucket_type, s3, ctx);
    assert(m3 == m);
}

/// A `RpbSetBucketReq` written to bytes reads back as itself.
pub proof fn lemma_rpb_set_bucket_req_roundtrip(m: RpbSetBucketReqView)
    requires
        rpb_set_bucket_req_bytes(m).len() < 0x1_0000_0000_0000_0000,
    ensures
        rpb_set_bucket_req_decode(rpb_set_bucket_req_bytes(m)) == Some(m),
{
    lemma_rpb_set_bucket_req_reads_back(m, 100);
}

proof fn lemma_rpb_reset_bucket_req_field_bucket(cur: RpbResetBucketReqView, v: Seq<u8>, rest: Seq<u8>, ctx: nat)
    requires
        cur.bucket == rpb_reset_bucket_req_empty().bucket,
        (bytes_piece(1, v) + rest).len() < 0x1_0000_0000_0000_0000,
        ctx >= 0,
    ensures
        rpb_reset_bucket_req_merge(cur, bytes_piece(1, v) + rest, ctx) == rpb_reset_bucket_req_merge((RpbResetBucketReqView { bucket: v, ..cur }), rest, ctx),
{
    let f = bytes_field(1, v);
    let s = bytes_piece(1, v) + rest;
    lemma_field_roundtrip(f, rest, ctx);
    lemma_field_parse_len(s, ctx);
    assert(s.skip(field_bytes(f).len() as int) =~= rest);
    assert(rpb_reset_bucket_req_apply(cur, f, ctx) == Some(RpbResetBucketReqView { bucket: v, ..cur }));
}

proof fn lemma_rpb_reset_bucket_req_field_bucket_type(cur: RpbResetBucketReqView, v: Option<Seq<u8>>, rest: Seq<u8>, ctx: nat)
    requires
        cur.bucket_type == rpb_reset_bucket_req_empty().bucket_type,
        (opt_bytes_piece(2, v) + rest).len() < 0x1_0000_0000_0000_0000,
        ctx >= 0,
    ensures
        rpb_reset_bucket_req_merge(cur, opt_bytes_piece(2, v) + rest, ctx) == rpb_reset_bucket_req_merge((RpbResetBucketReqView { bucket_type: v, ..cur }), rest, ctx),
{
    if v is Some {
        let f = bytes_field(2, v->0);
        let s = opt_bytes_piece(2, v) + rest;
        lemma_field_roundtrip(f, rest, ctx);
        lemma_field_parse_len(s, ctx);
        assert(s.skip(field_bytes(f).len() as int) =~= rest);
        assert(rpb_reset_bucket_req_apply(cur, f, ctx) == Some(RpbResetBucketReqView { bucket_type: v, ..cur }));
    } else {
        assert(opt_bytes_piece(2, v) + rest =~= rest);
        assert((RpbResetBucketReqView { bucket_type: v, ..cur }) == cur);
    }
}

/// A `RpbResetBucketReq` written to bytes merges back into an empty one as itself,
/// with an allowance of at least 0.
#[verifier::rlimit(50)]
pub proof fn lemma_rpb_reset_bucket_req_reads_back(m: RpbResetBucketReqView, ctx: nat)
    requires
        rpb_reset_bucket_req_bytes(m).len() < 0x1_0000_0000_0000_0000,
        ctx >= 0,
    ensures
        rpb_reset_bucket_req_merge(rpb_reset_bucket_req_empty(), rpb_reset_bucket_req_bytes(m), ctx) == Some(m),
{
    let p0 = bytes_piece(1, m.bucket);
    let p1 = opt_bytes_piece(2, m.bucket_type);
    let s2 = Seq::<u8>::empty();
    let s1 = p1 + s2;
    let s0 = p0 + s1;
    assert(rpb_reset_bucket_req_bytes(m) == s0) by {
        lemma_concat_assoc(p0, p1, s2);
        assert(p0 + p1 + s2 =~= p0 + p1);
    }
    let m0 = rpb_reset_bucket_req_empty();
    let m1 = RpbResetBucketReqView { bucket: m.bucket, ..m0 };
    let m2 = RpbResetBucketReqView { bucket_type: m.bucket_type, ..m1 };
    lemma_rpb_reset_bucket_req_field_bucket(m0, m.bucket, s1, ctx);
    lemma_rpb_reset_bucket_req_field_bucket_type(m1, m.bucket_type, s2, ctx);
    assert(m2 == m);
}

/// A `RpbResetBucketReq` written to bytes reads back as itself.
pub proof fn lemma_rpb_reset_bucket_req_roundtrip(m: RpbResetBucketReqView)
    requires
        rpb_reset_bucket_req_bytes(m).len() < 0x1_0000_0000_0000_0000,
    ensures
        rpb_reset_bucket_req_decode(rpb_reset_bucket_req_bytes(m)) == Some(m),
{
    lemma_rpb_reset_bucket_req_reads_back(m, 100);
}

proof fn lemma_rpb_get_bucket_type_req_field_bucket_type(cur: RpbGetBucketTypeReqView, v: Seq<u8>, rest: Seq<u8>, ctx: nat)
    requires
        cur.bucket_type == rpb_get_bucket_type_req_empty().bucket_type,
        (bytes_piece(1, v) + rest).len() < 0x1_0000_0000_0000_0000,
        ctx >= 0,
    ensures
        rpb_get_bucket_type_req_merge(cur, bytes_piece(1, v) + rest, ctx) == rpb_get_bucket_type_req_merge((RpbGetBucketTypeReqView { bucket_type: v, ..cur }), rest, ctx),
{
    let f = bytes_field(1, v);
    let s = bytes_piece(1, v) + rest;
    lemma_field_roundtrip(f, rest, ctx);
    lemma_field_parse_len(s, ctx);
    assert(s.skip(field_bytes(f).len() as int) =~= rest);
    assert(rpb_get_bucket_type_req_apply(cur, f, ctx) == Some(RpbGetBucketTypeReqView { bucket_type: v, ..cur }));
}

/// A `RpbGetBucketTypeReq` written to bytes merges back into an empty one as itself,
/// with an allowance of at least 0.
#[verifier::rlimit(50)]
pub proof fn lemma_rpb_get_bucket_type_req_reads_back(m: RpbGetBucketTypeReqView, ctx: nat)
    requires
        rpb_get_bucket_type_req_bytes(m).len() < 0x1_0000_0000_0000_0000,
        ctx >= 0,
    ensures
        rpb_get_bucket_type_req_merge(rpb_get_bucket_type_req_empty(), rpb_get_bucket_type_req_bytes(m), ctx) == Some(m),
{
    let p0 = bytes_piece(1, m.bucket_type);
    let s1 = Seq::<u8>::empty();
    let s0 = p0 + s1;
    assert(rpb_get_bucket_type_req_bytes(m) == s0) by {
        assert(p0 + s1 =~= p0);
    }
    let m0 = rpb_get_bucket_type_req_empty();
    let m1 = RpbGetBucketTypeReqView { bucket_type: m.bucket_type, ..m0 };
    lemma_rpb_get_bucket_type_req_field_bucket_type(m0, m.bucket_type, s1, ctx);
    assert(m1 == m);
}

/// A `RpbGetBucketTypeReq` written to bytes reads back as itself.
pub proof fn lemma_rpb_get_bucket_type_req_roundtrip(m: RpbGetBucketTypeReqView)
    requires
        rpb_get_bucket_type_req_bytes(m).len() < 0x1_0000_0000_0000_0000,
    ensures
        rpb_get_bucket_type_req_decode(rpb_get_bucket_type_req_bytes(m)) == Some(m),
{
    lemma_rpb_get_bucket_type_req_reads_back(m, 100);
}

proof fn lemma_rpb_set_bucket_type_req_field_bucket_type(cur: RpbSetBucketTypeReqView, v: Seq<u8>, rest: Seq<u8>, ctx: nat)
    requires
        cur.bucket_type == rpb_set_bucket_type_req_empty().bucket_type,
        (bytes_piece(1, v) + rest).len() < 0x1_0000_0000_0000_0000,
        ctx >= 3,
    ensures
        rpb_set_bucket_type_req_merge(cur, bytes_piece(1, v) + rest, ctx) == rpb_set_bucket_type_req_merge((RpbSetBucketTypeReqView { bucket_type: v, ..cur }), rest, ctx),
{
    let f = bytes_field(1, v);
    let s = bytes_piece(1, v) + rest;
    lemma_field_roundtrip(f, rest, ctx);
    lemma_field_parse_len(s, ctx);
    assert(s.skip(field_bytes(f).len() as int) =~= rest);
    assert(rpb_set_bucket_type_req_apply(cur, f, ctx) == Some(RpbSetBucketTypeReqView { bucket_type: v, ..cur }));
}

#[verifier::rlimit(50)]
proof fn lemma_rpb_set_bucket_type_req_field_props(cur: RpbSetBucketTypeReqView, v: RpbBucketPropsView, rest: Seq<u8>, ctx: nat)
    requires
        cur.props == rpb_set_bucket_type_req_empty().props,
        (bytes_piece(2, rpb_bucket_props_bytes(v)) + rest).len() < 0x1_0000_0000_0000_0000,
        ctx >= 3,
    ensures
        rpb_set_bucket_type_req_merge(cur, bytes_piece(2, rpb_bucket_props_bytes(v)) + rest, ctx) == rpb_set_bucket_type_req_merge((RpbSetBucketTypeReqView { props: v, ..cur }), rest, ctx),
{
    let f = bytes_field(2, rpb_bucket_props_bytes(v));
    let s = bytes_piece(2, rpb_bucket_props_bytes(v)) + rest;
    lemma_field_roundtrip(f, rest, ctx);
    lemma_field_parse_len(s, ctx);
    assert(s.skip(field_bytes(f).len() as int) =~= rest);
    lemma_rpb_bucket_props_reads_back(v, (ctx - 1) as nat);
    assert(rpb_set_bucket_type_req_apply(cur, f, ctx) == Some(RpbSetBucketTypeReqView { props: v, ..cur }));
}

/// A `RpbSetBucketTypeReq` written to bytes merges back into an empty one as itself,
/// with an allowance of at least 3.
#[verifier::rlimit(50)]
pub proof fn lemma_rpb_set_bucket_type_req_reads_back(m: RpbSetBucketTypeReqView, ctx: nat)
    requires
        rpb_set_bucket_type_req_bytes(m).len() < 0x1_0000_0000_0000_0000,
        ctx >= 3,
    ensures
        rpb_set_bucket_type_req_merge(rpb_set_bucket_type_req_empty(), rpb_set_bucket_type_req_bytes(m), ctx) == Some(m),
{
    let p0 = bytes_piece(1, m.bucket_type);
    let p1 = bytes_piece(2, rpb_bucket_props_bytes(m.props));
    let s2 = Seq::<u8>::empty();
    let s1 = p1 + s2;
    let s0 = p0 + s1;
    assert(rpb_set_bucket_type_req_bytes(m) == s0) by {
        lemma_concat_assoc(p0, p1, s2);
        assert(p0 + p1 + s2 =~= p0 + p1);
    }
    let m0 = rpb_set_bucket_type_req_empty();
    let m1 = RpbSetBucketTypeReqView { bucket_type: m.bucket_type, ..m0 };
    let m2 = RpbSetBucketTypeReqView { props: m.props, ..m1 };
    lemma_rpb_set_bucket_type_req_field_bucket_type(m0, m.bucket_type, s1, ctx);
    lemma_rpb_set_bucket_type_req_field_props(m1, m.props, s2, ctx);
    assert(m2 == m);
}

/// A `RpbSetBucketTypeReq` written to bytes reads back as itself.
pub proof fn lemma_rpb_set_bucket_type_req_roundtrip(m: RpbSetBucketTypeReqView)
    requires
        rpb_set_bucket_type_req_bytes(m).len() < 0x1_0000_0000_0000_0000,
    ensures
        rpb_set_bucket_type_req_decode(rpb_set_bucket_type_req_bytes(m)) == Some(m),
{
    lemma_rpb_set_bucket_type_req_reads_back(m, 100);
}

proof fn lemma_rpb_link_field_bucket(cur: RpbLinkView, v: Option<Seq<u8>>, rest: Seq<u8>, ctx: nat)
    requires
        cur.bucket == rpb_link_empty().bucket,
        (opt_bytes_piece(1, v) + rest).len() < 0x1_0000_0000_0000_0000,
        ctx >= 0,
    ensures
        rpb_link_merge(cur, opt_bytes_piece(1, v) + rest, ctx) == rpb_link_merge((RpbLinkView { bucket: v, ..cur }), rest, ctx),
{
    if v is Some {
        let f = bytes_field(1, v->0);
        let s = opt_bytes_piece(1, v) + rest;
        lemma_field_roundtrip(f, rest, ctx);
        lemma_field_parse_len(s, ctx);
        assert(s.skip(field_bytes(f).len() as int) =~= rest);
        assert(rpb_link_apply(cur, f, ctx) == Some(RpbLinkView { bucket: v, ..cur }));
    } else {
        assert(opt_bytes_piece(1, v) + rest =~= rest);
        assert((RpbLinkView { bucket: v, ..cur }) == cur);
    }
}

proof fn lemma_rpb_link_field_key(cur: RpbLinkView, v: Option<Seq<u8>>, rest: Seq<u8>, ctx: nat)
    requires
        cur.key == rpb_link_empty().key,
        (opt_bytes_piece(2, v) + rest).len() < 0x1_0000_0000_0000_0000,
        ctx >= 0,
    ensures
        rpb_link_merge(cur, opt_bytes_piece(2, v) + rest, ctx) == rpb_link_merge((RpbLinkView { key: v, ..cur }), rest, ctx),
{
    if v is Some {
        let f = bytes_field(2, v->0);
        let s = opt_bytes_piece(2, v) + rest;
        lemma_field_roundtrip(f, rest, ctx);
        lemma_field_parse_len(s, ctx);
        assert(s.skip(field_bytes(f).len() as int) =~= rest);
        assert(rpb_link_apply(cur, f, ctx) == Some(RpbLinkView { key: v, ..cur }));
    } else {
        assert(opt_bytes_piece(2, v) + rest =~= rest);
        assert((RpbLinkView { key: v, ..cur }) == cur);
    }
}

proof fn lemma_rpb_link_field_tag(cur: RpbLinkView, v: Option<Seq<u8>>, rest: Seq<u8>, ctx: nat)
    requires
        cur.tag == rpb_link_empty().tag,
        (opt_bytes_piece(3, v) + rest).len() < 0x1_0000_0000_0000_0000,
        ctx >= 0,
    ensures
        rpb_link_merge(cur, opt_bytes_piece(3, v) + rest, ctx) == rpb_link_merge((RpbLinkView { tag: v, ..cur }), rest, ctx),
{
    if v is Some {
        let f = bytes_field(3, v->0);
        let s = opt_bytes_piece(3, v) + rest;
        lemma_field_roundtrip(f, rest, ctx);
        lemma_field_parse_len(s, ctx);
        assert(s.skip(field_bytes(f).len() as int) =~= rest);
        assert(rpb_link_apply(cur, f, ctx) == Some(RpbLinkView { tag: v, ..cur }));
    } else {
        assert(opt_bytes_piece(3, v) + rest =~= rest);
        assert((RpbLinkView { tag: v, ..cur }) == cur);
    }
}

/// A `RpbLink` written to bytes merges back into an empty one as itself,
/// with an allowance of at least 0.
#[verifier::rlimit(50)]
pub proof fn lemma_rpb_link_reads_back(m: RpbLinkView, ctx: nat)
    requires
        rpb_link_bytes(m).len() < 0x1_0000_0000_0000_0000,
        ctx >= 0,
    ensures
        rpb_link_merge(rpb_link_empty(), rpb_link_bytes(m), ctx) == Some(m),
{
    let p0 = opt_bytes_piece(1, m.bucket);
    let p1 = opt_bytes_piece(2, m.key);
    let p2 = opt_bytes_piece(3, m.tag);
    let s3 = Seq::<u8>::empty();
    let s2 = p2 + s3;
    let s1 = p1 + s2;
    let s0 = p0 + s1;
    assert(rpb_link_bytes(m) == s0) by {
        lemma_concat_assoc(p0, p1, s2);
        lemma_concat_assoc(p0 + p1, p2, s3);
        assert(p0 + p1 + p2 + s3 =~= p0 + p1 + p2);
    }
    let m0 = rpb_link_empty();
    let m1 = RpbLinkView { bucket: m.bucket, ..m0 };
    let m2 = RpbLinkView { key: m.key, ..m1 };
    let m3 = RpbLinkView { tag: m.tag, ..m2 };
    lemma_rpb_link_field_bucket(m0, m.bucket, s1, ctx);
    lemma_rpb_link_field_key(m1, m.key, s2, ctx);
    lemma_rpb_link_field_tag(m2, m.tag, s3, ctx);
    assert(m3 == m);
}

/// A `RpbLink` written to bytes reads back as itself.
pub proof fn lemma_rpb_link_roundtrip(m: RpbLinkView)
    requires
        rpb_link_bytes(m).len() < 0x1_0000_0000_0000_0000,
    ensures
        rpb_link_decode(rpb_link_bytes(m)) == Some(m),
{
    lemma_rpb_link_reads_back(m, 100);
}

proof fn lemma_rpb_content_rep_links(m0: RpbContentView, s: Seq<RpbLinkView>, rest: Seq<u8>, ctx: nat)
    requires
        (rep_bytes_piece(6, s.map_values(|v: RpbLinkView| rpb_link_bytes(v))) + rest).len() < 0x1_0000_0000_0000_0000,
        ctx >= 1,
    ensures
        rpb_content_merge(m0, rep_bytes_piece(6, s.map_values(|v: RpbLinkView| rpb_link_bytes(v))) + rest, ctx) == rpb_content_merge((RpbContentView { links: m0.links + s, ..m0 }), rest, ctx),
    decreases s.len(),
{
    let bs = s.map_values(|v: RpbLinkView| rpb_link_bytes(v));
    if s.len() == 0 {
        assert(rep_bytes_piece(6, bs) + rest =~= rest);
        assert(m0.links + s =~= m0.links);
        assert((RpbContentView { links: m0.links + s, ..m0 }) == m0);
    } else {
        let s2 = s.drop_last();
        let x = s.last();
        let f = bytes_field(6, rpb_link_bytes(x));
        let bs2 = s2.map_values(|v: RpbLinkView| rpb_link_bytes(v));
        assert(bs.drop_last() =~= bs2);
        assert(rep_bytes_piece(6, bs) + rest =~= rep_bytes_piece(6, bs2) + (field_bytes(f) + rest));
        lemma_rpb_content_rep_links(m0, s2, field_bytes(f) + rest, ctx);
        let m1 = RpbContentView { links: m0.links + s2, ..m0 };
        let tail = field_bytes(f) + rest;
        lemma_field_roundtrip(f, rest, ctx);
        lemma_field_parse_len(tail, ctx);
        assert(tail.skip(field_bytes(f).len() as int) =~= rest);
        lemma_rpb_link_reads_back(x, (ctx - 1) as nat);
        assert(m1.links.push(x) =~= m0.links + s);
        assert(rpb_content_apply(m1, f, ctx) == Some(RpbContentView { links: m0.links + s, ..m0 }));
    }
}

proof fn lemma_rpb_content_rep_usermeta(m0: RpbContentView, s: Seq<RpbPairView>, rest: Seq<u8>, ctx: nat)
    requires
        (rep_bytes_piece(9, s.map_values(|v: RpbPairView| rpb_pair_bytes(v))) + rest).len() < 0x1_0000_0000_0000_0000,
        ctx >= 1,
    ensures
        rpb_content_merge(m0, rep_bytes_piece(9, s.map_values(|v: RpbPairView| rpb_pair_bytes(v))) + rest, ctx) == rpb_content_merge((RpbContentView { usermeta: m0.usermeta + s, ..m0 }), rest, ctx),
    decreases s.len(),
{
    let bs = s.map_values(|v: RpbPairView| rpb_pair_bytes(v));
    if s.len() == 0 {
        assert(rep_bytes_piece(9, bs) + rest =~= rest);
        assert(m0.usermeta + s =~= m0.usermeta);
        assert((RpbContentView { usermeta: m0.usermeta + s, ..m0 }) == m0);
    } else {
        let s2 = s.drop_last();
        let x = s.last();
        let f = bytes_field(9, rpb_pair_bytes(x));
        let bs2 = s2.map_values(|v: RpbPairView| rpb_pair_bytes(v));
        assert(bs.drop_last() =~= bs2);
        assert(rep_bytes_piece(9, bs) + rest =~= rep_bytes_piece(9, bs2) + (field_bytes(f) + rest));
        lemma_rpb_content_rep_usermeta(m0, s2, field_bytes(f) + rest, ctx);
        let m1 = RpbContentView { usermeta: m0.usermeta + s2, ..m0 };
        let tail = field_bytes(f) + rest;
        lemma_field_roundtrip(f, rest, ctx);
        lemma_field_parse_len(tail, ctx);
        assert(tail.skip(field_bytes(f).len() as int) =~= rest);
        lemma_rpb_pair_reads_back(x, (ctx - 1) as nat);
        assert(m1.usermeta.push(x) =~= m0.usermeta + s);
        assert(rpb_content_apply(m1, f, ctx) == Some(RpbContentView { usermeta: m0.usermeta + s, ..m0 }));
    }
}

proof fn lemma_rpb_content_rep_indexes(m0: RpbContentView, s: Seq<RpbPairView>, rest: Seq<u8>, ctx: nat)
    requires
        (rep_bytes_piece(10, s.map_values(|v: RpbPairView| rpb_pair_bytes(v))) + rest).len() < 0x1_0000_0000_0000_0000,
        ctx >= 1,
    ensures
        rpb_content_merge(m0, rep_bytes_piece(10, s.map_values(|v: RpbPairView| rpb_pair_bytes(v))) + rest, ctx) == rpb_content_merge((RpbContentView { indexes: m0.indexes + s, ..m0 }), rest, ctx),
    decreases s.len(),
{
    let bs = s.map_values(|v: RpbPairView| rpb_pair_bytes(v));
    if s.len() == 0 {
        assert(rep_bytes_piece(10, bs) + rest =~= rest);
        assert(m0.indexes + s =~= m0.indexes);
        assert((RpbContentView { indexes: m0.indexes + s, ..m0 }) == m0);
    } else {
        let s2 = s.drop_last();
        let x = s.last();
        let f = bytes_field(10, rpb_pair_bytes(x));
        let bs2 = s2.map_values(|v: RpbPairView| rpb_pair_bytes(v));
        assert(bs.drop_last() =~= bs2);
        assert(rep_bytes_piece(10, bs) + rest =~= rep_bytes_piece(10, bs2) + (field_bytes(f) + rest));
        lemma_rpb_content_rep_indexes(m0, s2, field_bytes(f) + rest, ctx);
        let m1 = RpbContentView { indexes: m0.indexes + s2, ..m0 };
        let tail = field_bytes(f) + rest;
        lemma_field_roundtrip(f, rest, ctx);
        lemma_field_parse_len(tail, ctx);
        assert(tail.skip(field_bytes(f).len() as int) =~= rest);
        lemma_rpb_pair_reads_back(x, (ctx - 1) as nat);
        assert(m1.indexes.push(x) =~= m0.indexes + s);
        assert(rpb_content_apply(m1, f, ctx) == Some(RpbContentView { indexes: m0.indexes + s, ..m0 }));
    }
}

proof fn lemma_rpb_content_field_value(cur: RpbContentView, v: Seq<u8>, rest: Seq<u8>, ctx: nat)
    requires
        cur.value == rpb_content_empty().value,
        (bytes_piece(1, v) + rest).len() < 0x1_0000_0000_0000_0000,
        ctx >= 1,
    ensures
        rpb_content_merge(cur, bytes_piece(1, v) + rest, ctx) == rpb_content_merge((RpbContentView { value: v, ..cur }), rest, ctx),
{
    let f = bytes_field(1, v);
    let s = bytes_piece(1, v) + rest;
    lemma_field_roundtrip(f, rest, ctx);
    lemma_field_parse_len(s, ctx);
    assert(s.skip(field_bytes(f).len() as int) =~= rest);
    assert(rpb_content_apply(cur, f, ctx) == Some(RpbContentView { value: v, ..cur }));
}

proof fn lemma_rpb_content_field_content_type(cur: RpbContentView, v: Option<Seq<u8>>, rest: Seq<u8>, ctx: nat)
    requires
        cur.content_type == rpb_content_empty().content_type,
        (opt_bytes_piece(2, v) + rest).len() < 0x1_0000_0000_0000_0000,
        ctx >= 1,
    ensures
        rpb_content_merge(cur, opt_bytes_piece(2, v) + rest, ctx) == rpb_content_merge((RpbContentView { content_type: v, ..cur }), rest, ctx),
{
    if v is Some {
        let f = bytes_field(2, v->0);
        let s = opt_bytes_piece(2, v) + rest;
        lemma_field_roundtrip(f, rest, ctx);
        lemma_field_parse_len(s, ctx);
        assert(s.skip(field_bytes(f).len() as int) =~= rest);
        assert(rpb_content_apply(cur, f, ctx) == Some(RpbContentView { content_type: v, ..cur }));
    } else {
        assert(opt_bytes_piece(2, v) + rest =~= rest);
        assert((RpbContentView { content_type: v, ..cur }) == cur);
    }
}

proof fn lemma_rpb_content_field_charset(cur: RpbContentView, v: Option<Seq<u8>>, rest: Seq<u8>, ctx: nat)
    requires
        cur.charset == rpb_content_empty().charset,
        (opt_bytes_piece(3, v) + rest).len() < 0x1_0000_0000_0000_0000,
        ctx >= 1,
    ensures
        rpb_content_merge(cur, opt_bytes_piece(3, v) + rest, ctx) == rpb_content_merge((RpbContentView { charset: v, ..cur }), rest, ctx),
{
    if v is Some {
        let f = bytes_field(3, v->0);
        let s = opt_bytes_piece(3, v) + rest;
        lemma_field_roundtrip(f, rest, ctx);
        lemma_field_parse_len(s, ctx);
        assert(s.skip(field_bytes(f).len() as int) =~= rest);
        assert(rpb_content_apply(cur, f, ctx) == Some(RpbContentView { charset: v, ..cur }));
    } else {
        assert(opt_bytes_piece(3, v) + rest =~= rest);
        assert((RpbContentView { charset: v, ..cur }) == cur);
    }
}

proof fn lemma_rpb_content_field_content_encoding(cur: RpbContentView, v: Option<Seq<u8>>, rest: Seq<u8>, ctx: nat)
    requires
        cur.content_encoding == rpb_content_empty().content_encoding,
        (opt_bytes_piece(4, v) + rest).len() < 0x1_0000_0000_0000_0000,
        ctx >= 1,
    ensures
        rpb_content_merge(cur, opt_bytes_piece(4, v) + rest, ctx) == rpb_content_merge((RpbContentView { content_encoding: v, ..cur }), rest, ctx),
{
    if v is Some {
        let f = bytes_field(4, v->0);
        let s = opt_bytes_piece(4, v) + rest;
        lemma_field_roundtrip(f, rest, ctx);
        lemma_field_parse_len(s, ctx);
        assert(s.skip(field_bytes(f).len() as int) =~= rest);
        assert(rpb_content_apply(cur, f, ctx) == Some(RpbContentView { content_encoding: v, ..cur }));
    } else {
        assert(opt_bytes_piece(4, v) + rest =~= rest);
        assert((RpbContentView { content_encoding: v, ..cur }) == cur);
    }
}

proof fn lemma_rpb_content_field_vtag(cur: RpbContentView, v: Option<Seq<u8>>, rest: Seq<u8>, ctx: nat)
    requires
        cur.vtag == rpb_content_empty().vtag,
        (opt_bytes_piece(5, v) + rest).len() < 0x1_0000_0000_0000_0000,
        ctx >= 1,
    ensures
        rpb_content_merge(cur, opt_bytes_piece(5, v) + rest, ctx) == rpb_content_merge((RpbContentView { vtag: v, ..cur }), rest, ctx),
{
    if v is Some {
        let f = bytes_field(5, v->0);
        let s = opt_bytes_piece(5, v) + rest;
        lemma_field_roundtrip(f, rest, ctx);
        lemma_field_parse_len(s, ctx);
        assert(s.skip(field_bytes(f).len() as int) =~= rest);
        assert(rpb_content_apply(cur, f, ctx) == Some(RpbContentView { vtag: v, ..cur }));
    } else {
        assert(opt_bytes_piece(5, v) + rest =~= rest);
        assert((RpbContentView { vtag: v, ..cur }) == cur);
    }
}

proof fn lemma_rpb_content_field_last_mod(cur: RpbContentView, v: Option<u32>, rest: Seq<u8>, ctx: nat)
    requires
        cur.last_mod == rpb_content_empty().last_mod,
        (opt_varint_piece(7, opt_u32_code(v)) + rest).len() < 0x1_0000_0000_0000_0000,
        ctx >= 1,
    ensures
        rpb_content_merge(cur, opt_varint_piece(7, opt_u32_code(v)) + rest, ctx) == rpb_content_merge((RpbContentView { last_mod: v, ..cur }), rest, ctx),
{
    if v is Some {
        let f = varint_field(7, v->0 as u64);
        let s = opt_varint_piece(7, opt_u32_code(v)) + rest;
        lemma_field_roundtrip(f, rest, ctx);
        lemma_field_parse_len(s, ctx);
        assert(s.skip(field_bytes(f).len() as int) =~= rest);
        assert(rpb_content_apply(cur, f, ctx) == Some(RpbContentView { last_mod: v, ..cur }));
    } else {
        assert(opt_varint_piece(7, opt_u32_code(v)) + rest =~= rest);
        assert((RpbContentView { last_mod: v, ..cur }) == cur);
    }
}

proof fn lemma_rpb_content_field_last_mod_usecs(cur: RpbContentView, v: Option<u32>, rest: Seq<u8>, ctx: nat)
    requires
        cur.last_mod_usecs == rpb_content_empty().last_mod_usecs,
        (opt_varint_piece(8, opt_u32_code(v)) + rest).len() < 0x1_0000_0000_0000_0000,
        ctx >= 1,
    ensures
        rpb_content_merge(cur, opt_varint_piece(8, opt_u32_code(v)) + rest, ctx) == rpb_content_merge((RpbContentView { last_mod_usecs: v, ..cur }), rest, ctx),
{
    if v is Some {
        let f = varint_field(8, v->0 as u64);
        let s = opt_varint_piece(8, opt_u32_code(v)) + rest;
        lemma_field_roundtrip(f, rest, ctx);
        lemma_field_parse_len(s, ctx);
        assert(s.skip(field_bytes(f).len() as int) =~= rest);
        assert(rpb_content_apply(cur, f, ctx) == Some(RpbContentView { last_mod_usecs: v, ..cur }));
    } else {
        assert(opt_varint_piece(8, opt_u32_code(v)) + rest =~= rest);
        assert((RpbContentView { last_mod_usecs: v, ..cur }) == cur);
    }
}

proof fn lemma_rpb_content_field_deleted(cur: RpbContentView, v: Option<bool>, rest: Seq<u8>, ctx: nat)
    requires
        cur.deleted == rpb_content_empty().deleted,
        (opt_varint_piece(11, opt_bool_code(v)) + rest).len() < 0x1_0000_0000_0000_0000,
        ctx >= 1,
    ensures
        rpb_content_merge(cur, opt_varint_piece(11, opt_bool_code(v)) + rest, ctx) == rpb_content_merge((RpbContentView { deleted: v, ..cur }), rest, ctx),
{
    if v is Some {
        let f = varint_field(11, bool_code(v->0));
        let s = opt_varint_piece(11, opt_bool_code(v)) + rest;
        lemma_field_roundtrip(f, rest, ctx);
        lemma_field_parse_len(s, ctx);
        assert(s.skip(field_bytes(f).len() as int) =~= rest);
        assert(rpb_content_apply(cur, f, ctx) == Some(RpbContentView { deleted: v, ..cur }));
    } else {
        assert(opt_varint_piece(11, opt_bool_code(v)) + rest =~= rest);
        assert((RpbContentView { deleted: v, ..cur }) == cur);
    }
}

proof fn lemma_rpb_content_field_ttl(cur: RpbContentView, v: Option<u32>, rest: Seq<u8>, ctx: nat)
    requires
        cur.ttl == rpb_content_empty().ttl,
        (opt_varint_piece(12, opt_u32_code(v)) + rest).len() < 0x1_0000_0000_0000_0000,
        ctx >= 1,
    ensures
        rpb_content_merge(cur, opt_varint_piece(12, opt_u32_code(v)) + rest, ctx) == rpb_content_merge((RpbContentView { ttl: v, ..cur }), rest, ctx),
{
    if v is Some {
        let f = varint_field(12, v->0 as u64);
        let s = opt_varint_piece(12, opt_u32_code(v)) + rest;
        lemma_field_roundtrip(f, rest, ctx);
        lemma_field_parse_len(s, ctx);
        assert(s.skip(field_bytes(f).len() as int) =~= rest);
        assert(rpb_content_apply(cur, f, ctx) == Some(RpbContentView { ttl: v, ..cur }));
    } else {
        assert(opt_varint_piece(12, opt_u32_code(v)) + rest =~= rest);
        assert((RpbContentView { ttl: v, ..cur }) == cur);
    }
}

/// A `RpbContent` written to bytes merges back into an empty one as itself,
/// with an allowance of at least 1.
#[verifier::rlimit(50)]
pub proof fn lemma_rpb_content_reads_back(m: RpbContentView, ctx: nat)
    requires
        rpb_content_bytes(m).len() < 0x1_0000_0000_0000_0000,
        ctx >= 1,
    ensures
        rpb_content_merge(rpb_content_empty(), rpb_content_bytes(m), ctx) == Some(m),
{
    let p0 = bytes_piece(1, m.value);
    let p1 = opt_bytes_piece(2, m.content_type);
    let p2 = opt_bytes_piece(3, m.charset);
    let p3 = opt_bytes_piece(4, m.content_encoding);
    let p4 = opt_bytes_piece(5, m.vtag);
    let p5 = rep_bytes_piece(6, m.links.map_values(|s: RpbLinkView| rpb_link_bytes(s)));
    let p6 = opt_varint_piece(7, opt_u32_code(m.last_mod));
    let p7 = opt_varint_piece(8, opt_u32_code(m.last_mod_usecs));
    let p8 = rep_bytes_piece(9, m.usermeta.map_values(|s: RpbPairView| rpb_pair_bytes(s)));
    let p9 = rep_bytes_piece(10, m.indexes.map_values(|s: RpbPairView| rpb_pair_bytes(s)));
    let p10 = opt_varint_piece(11, opt_bool_code(m.deleted));
    let p11 = opt_varint_piece(12, opt_u32_code(m.ttl));
    let s12 = Seq::<u8>::empty();
    let s11 = p11 + s12;
    let s10 = p10 + s11;
    let s9 = p9 + s10;
    let s8 = p8 + s9;
    let s7 = p7 + s8;
    let s6 = p6 + s7;
    let s5 = p5 + s6;
    let s4 = p4 + s5;
    let s3 = p3 + s4;
    let s2 = p2 + s3;
    let s1 = p1 + s2;
    let s0 = p0 + s1;
    assert(rpb_content_bytes(m) == s0) by {
        lemma_concat_assoc(p0, p1, s2);
        lemma_concat_assoc(p0 + p1, p2, s3);
        lemma_concat_assoc(p0 + p1 + p2, p3, s4);
        lemma_concat_assoc(p0 + p1 + p2 + p3, p4, s5);
        lemma_concat_assoc(p0 + p1 + p2 + p3 + p4, p5, s6);
        lemma_concat_assoc(p0 + p1 + p2 + p3 + p4 + p5, p6, s7);
        lemma_concat_assoc(p0 + p1 + p2 + p3 + p4 + p5 + p6, p7, s8);
        lemma_concat_assoc(p0 + p1 + p2 + p3 + p4 + p5 + p6 + p7, p8, s9);
        lemma_concat_assoc(p0 + p1 + p2 + p3 + p4 + p5 + p6 + p7 + p8, p9, s10);
        lemma_concat_assoc(p0 + p1 + p2 + p3 + p4 + p5 + p6 + p7 + p8 + p9, p10, s11);
        lemma_concat_assoc(p0 + p1 + p2 + p3 + p4 + p5 + p6 + p7 + p8 + p9 + p10, p11, s12);
        assert(p0 + p1 + p2 + p3 + p4 + p5 + p6 + p7 + p8 + p9 + p10 + p11 + s12 =~= p0 + p1 + p2 + p3 + p4 + p5 + p6 + p7 + p8 + p9 + p10 + p11);
    }
    let m0 = rpb_content_empty();
    let m1 = RpbContentView { value: m.value, ..m0 };
    let m2 = RpbContentView { content_type: m.content_type, ..m1 };
    let m3 = RpbContentView { charset: m.charset, ..m2 };
    let m4 = RpbContentView { content_encoding: m.content_encoding, ..m3 };
    let m5 = RpbContentView { vtag: m.vtag, ..m4 };
    let m6 = RpbContentView { links: m.links, ..m5 };
    let m7 = RpbContentView { last_mod: m.last_mod, ..m6 };
    let m8 = RpbContentView { last_mod_usecs: m.last_mod_usecs, ..m7 };
    let m9 = RpbContentView { usermeta: m.usermeta, ..m8 };
    let m10 = RpbContentView { indexes: m.indexes, ..m9 };
    let m11 = RpbContentView { deleted: m.deleted, ..m10 };
    let m12 = RpbContentView { ttl: m.ttl, ..m11 };
    lemma_rpb_content_field_value(m0, m.value, s1, ctx);
    lemma_rpb_content_field_content_type(m1, m.content_type, s2, ctx);
    lemma_rpb_content_field_charset(m2, m.charset, s3, ctx);
    lemma_rpb_content_field_content_encoding(m3, m.content_encoding, s4, ctx);
    lemma_rpb_content_field_vtag(m4, m.vtag, s5, ctx);
    lemma_rpb_content_rep_links(m5, m.links, s6, ctx);
    assert(m5.links + m.links =~= m.links);
    lemma_rpb_content_field_last_mod(m6, m.last_mod, s7, ctx);
    lemma_rpb_content_field_last_mod_usecs(m7, m.last_mod_usecs, s8, ctx);
    lemma_rpb_content_rep_usermeta(m8, m.usermeta, s9, ctx);
    assert(m8.usermeta + m.usermeta =~= m.usermeta);
    lemma_rpb_content_rep_indexes(m9, m.indexes, s10, ctx);
    assert(m9.indexes + m.indexes =~= m.indexes);
    lemma_rpb_content_field_deleted(m10, m.deleted, s11, ctx);
    lemma_rpb_content_field_ttl(m11, m.ttl, s12, ctx);
    assert(m12 == m);
}

/// A `RpbContent` written to bytes reads back as itself.
pub proof fn lemma_rpb_content_roundtrip(m: RpbContentView)
    requires
        rpb_content_bytes(m).len() < 0x1_0000_0000_0000_0000,
    ensures
        rpb_content_decode(rpb_content_bytes(m)) == Some(m),
{
    lemma_rpb_content_reads_back(m, 100);
}

proof fn lemma_rpb_get_req_field_bucket(cur: RpbGetReqView, v: Seq<u8>, rest: Seq<u8>, ctx: nat)
    requires
        cur.bucket == rpb_get_req_empty().bucket,
        (bytes_piece(1, v) + rest).len() < 0x1_0000_0000_0000_0000,
        ctx >= 0,
    ensures
        rpb_get_req_merge(cur, bytes_piece(1, v) + rest, ctx) == rpb_get_req_merge((RpbGetReqView { bucket: v, ..cur }), rest, ctx),
{
    let f = bytes_field(1, v);
    let s = bytes_piece(1, v) + rest;
    lemma_field_roundtrip(f, rest, ctx);
    lemma_field_parse_len(s, ctx);
    assert(s.skip(field_bytes(f).len() as int) =~= rest);
    assert(rpb_get_req_apply(cur, f, ctx) == Some(RpbGetReqView { bucket: v, ..cur }));
}

proof fn lemma_rpb_get_req_field_key(cur: RpbGetReqView, v: Seq<u8>, rest: Seq<u8>, ctx: nat)
    requires
        cur.key == rpb_get_req_empty().key,
        (bytes_piece(2, v) + rest).len() < 0x1_0000_0000_0000_0000,
        ctx >= 0,
    ensures
        rpb_get_req_merge(cur, bytes_piece(2, v) + rest, ctx) == rpb_get_req_merge((RpbGetReqView { key: v, ..cur }), rest, ctx),
{
    let f = bytes_field(2, v);
    let s = bytes_piece(2, v) + rest;
    lemma_field_roundtrip(f, rest, ctx);
    lemma_field_parse_len(s, ctx);
    assert(s.skip(field_bytes(f).len() as int) =~= rest);
    assert(rpb_get_req_apply(cur, f, ctx) == Some(RpbGetReqView { key: v, ..cur }));
}

proof fn lemma_rpb_get_req_field_r(cur: RpbGetReqView, v: Option<u32>, rest: Seq<u8>, ctx: nat)
    requires
        cur.r == rpb_get_req_empty().r,
        (opt_varint_piece(3, opt_u32_code(v)) + rest).len() < 0x1_0000_0000_0000_0000,
        ctx >= 0,
    ensures
        rpb_get_req_merge(cur, opt_varint_piece(3, opt_u32_code(v)) + rest, ctx) == rpb_get_req_merge((RpbGetReqView { r: v, ..cur }), rest, ctx),
{
    if v is Some {
        let f = varint_field(3, v->0 as u64);
        let s = opt_varint_piece(3, opt_u32_code(v)) + rest;
        lemma_field_roundtrip(f, rest, ctx);
        lemma_field_parse_len(s, ctx);
        assert(s.skip(field_bytes(f).len() as int) =~= rest);
        assert(rpb_get_req_apply(cur, f, ctx) == Some(RpbGetReqView { r: v, ..cur }));
    } else {
        assert(opt_varint_piece(3, opt_u32_code(v)) + rest =~= rest);
        assert((RpbGetReqView { r: v, ..cur }) == cur);
    }
}

proof fn lemma_rpb_get_req_field_pr(cur: RpbGetReqView, v: Option<u32>, rest: Seq<u8>, ctx: nat)
    requires
        cur.pr == rpb_get_req_empty().pr,
        (opt_varint_piece(4, opt_u32_code(v)) + rest).len() < 0x1_0000_0000_0000_0000,
        ctx >= 0,
    ensures
        rpb_get_req_merge(cur, opt_varint_piece(4, opt_u32_code(v)) + rest, ctx) == rpb_get_req_merge((RpbGetReqView { pr: v, ..cur }), rest, ctx),
{
    if v is Some {
        let f = varint_field(4, v->0 as u64);
        let s = opt_varint_piece(4, opt_u32_code(v)) + rest;
        lemma_field_roundtrip(f, rest, ctx);
        lemma_field_parse_len(s, ctx);
        assert(s.skip(field_bytes(f).len() as int) =~= rest);
        assert(rpb_get_req_apply(cur, f, ctx) == Some(RpbGetReqView { pr: v, ..cur }));
    } else {
        assert(opt_varint_piece(4, opt_u32_code(v)) + rest =~= rest);
        assert((RpbGetReqView { pr: v, ..cur }) == cur);
    }
}

proof fn lemma_rpb_get_req_field_basic_quorum(cur: RpbGetReqView, v: Option<bool>, rest: Seq<u8>, ctx: nat)
    requires
        cur.basic_quorum == rpb_get_req_empty().basic_quorum,
        (opt_varint_piece(5, opt_bool_code(v)) + rest).len() < 0x1_0000_0000_0000_0000,
        ctx >= 0,
    ensures
        rpb_get_req_merge(cur, opt_varint_piece(5, opt_bool_code(v)) + rest, ctx) == rpb_get_req_merge((RpbGetReqView { basic_quorum: v, ..cur }), rest, ctx),
{
    if v is Some {
        let f = varint_field(5, bool_code(v->0));
        let s = opt_varint_piece(5, opt_bool_code(v)) + rest;
        lemma_field_roundtrip(f, rest, ctx);
        lemma_field_parse_len(s, ctx);
        assert(s.skip(field_bytes(f).len() as int) =~= rest);
        assert(rpb_get_req_apply(cur, f, ctx) == Some(RpbGetReqView { basic_quorum: v, ..cur }));
    } else {
        assert(opt_varint_piece(5, opt_bool_code(v)) + rest =~= rest);
        assert((RpbGetReqView { basic_quorum: v, ..cur }) == cur);
    }
}

proof fn lemma_rpb_get_req_field_notfound_ok(cur: RpbGetReqView, v: Option<bool>, rest: Seq<u8>, ctx: nat)
    requires
        cur.notfound_ok == rpb_get_req_empty().notfound_ok,
        (opt_varint_piece(6, opt_bool_code(v)) + rest).len() < 0x1_0000_0000_0000_0000,
        ctx >= 0,
    ensures
        rpb_get_req_merge(cur, opt_varint_piece(6, opt_bool_code(v)) + rest, ctx) == rpb_get_req_merge((RpbGetReqView { notfound_ok: v, ..cur }), rest, ctx),
{
    if v is Some {
        let f = varint_field(6, bool_code(v->0));
        let s = opt_varint_piece(6, opt_bool_code(v)) + rest;
        lemma_field_roundtrip(f, rest, ctx);
        lemma_field_parse_len(s, ctx);
        assert(s.skip(field_bytes(f).len() as int) =~= rest);
        assert(rpb_get_req_apply(cur, f, ctx) == Some(RpbGetReqView { notfound_ok: v, ..cur }));
    } else {
        assert(opt_varint_piece(6, opt_bool_code(v)) + rest =~= rest);
        assert((RpbGetReqView { notfound_ok: v, ..cur }) == cur);
    }
}

proof fn lemma_rpb_get_req_field_if_modified(cur: RpbGetReqView, v: Option<Seq<u8>>, rest: Seq<u8>, ctx: nat)
    requires
        cur.if_modified == rpb_get_req_empty().if_modified,
        (opt_bytes_piece(7, v) + rest).len() < 0x1_0000_0000_0000_0000,
        ctx >= 0,
    ensures
        rpb_get_req_merge(cur, opt_bytes_piece(7, v) + rest, ctx) == rpb_get_req_merge((RpbGetReqView { if_modified: v, ..cur }), rest, ctx),
{
    if v is Some {
        let f = bytes_field(7, v->0);
        let s = opt_bytes_piece(7, v) + rest;
        lemma_field_roundtrip(f, rest, ctx);
        lemma_field_parse_len(s, ctx);
        assert(s.skip(field_bytes(f).len() as int) =~= rest);
        assert(rpb_get_req_apply(cur, f, ctx) == Some(RpbGetReqView { if_modified: v, ..cur }));
    } else {
        assert(opt_bytes_piece(7, v) + rest =~= rest);
        assert((RpbGetReqView { if_modified: v, ..cur }) == cur);
    }
}

proof fn lemma_rpb_get_req_field_head(cur: RpbGetReqView, v: Option<bool>, rest: Seq<u8>, ctx: nat)
    requires
        cur.head == rpb_get_req_empty().head,
        (opt_varint_piece(8, opt_bool_code(v)) + rest).len() < 0x1_0000_0000_0000_0000,
        ctx >= 0,
    ensures
        rpb_get_req_merge(cur, opt_varint_piece(8, opt_bool_code(v)) + rest, ctx) == rpb_get_req_merge((RpbGetReqView { head: v, ..cur }), rest, ctx),
{
    if v is Some {
        let f = varint_field(8, bool_code(v->0));
        let s = opt_varint_piece(8, opt_bool_code(v)) + rest;
        lemma_field_roundtrip(f, rest, ctx);
        lemma_field_parse_len(s, ctx);
        assert(s.skip(field_bytes(f).len() as int) =~= rest);
        assert(rpb_get_req_apply(cur, f, ctx) == Some(RpbGetReqView { head: v, ..cur }));
    } else {
        assert(opt_varint_piece(8, opt_bool_code(v)) + rest =~= rest);
        assert((RpbGetReqView { head: v, ..cur }) == cur);
    }
}

proof fn lemma_rpb_get_req_field_deletedvclock(cur: RpbGetReqView, v: Option<bool>, rest: Seq<u8>, ctx: nat)
    requires
        cur.deletedvclock == rpb_get_req_empty().deletedvclock,
        (opt_varint_piece(9, opt_bool_code(v)) + rest).len() < 0x1_0000_0000_0000_0000,
        ctx >= 0,
    ensures
        rpb_get_req_merge(cur, opt_varint_piece(9, opt_bool_code(v)) + rest, ctx) == rpb_get_req_merge((RpbGetReqView { deletedvclock: v, ..cur }), rest, ctx),
{
    if v is Some {
        let f = varint_field(9, bool_code(v->0));
        let s = opt_varint_piece(9, opt_bool_code(v)) + rest;
        lemma_field_roundtrip(f, rest, ctx);
        lemma_field_parse_len(s, ctx);
        assert(s.skip(field_bytes(f).len() as int) =~= rest);
        assert(rpb_get_req_apply(cur, f, ctx) == Some(RpbGetReqView { deletedvclock: v, ..cur }));
    } else {
        assert(opt_varint_piece(9, opt_bool_code(v)) + rest =~= rest);
        assert((RpbGetReqView { deletedvclock: v, ..cur }) == cur);
    }
}

proof fn lemma_rpb_get_req_field_timeout(cur: RpbGetReqView, v: Option<u32>, rest: Seq<u8>, ctx: nat)
    requires
        cur.timeout == rpb_get_req_empty().timeout,
        (opt_varint_piece(10, opt_u32_code(v)) + rest).len() < 0x1_0000_0000_0000_0000,
        ctx >= 0,
    ensures
        rpb_get_req_merge(cur, opt_varint_piece(10, opt_u32_code(v)) + rest, ctx) == rpb_get_req_merge((RpbGetReqView { timeout: v, ..cur }), rest, ctx),
{
    if v is Some {
        let f = varint_field(10, v->0 as u64);
        let s = opt_varint_piece(10, opt_u32_code(v)) + rest;
        lemma_field_roundtrip(f, rest, ctx);
        lemma_field_parse_len(s, ctx);
        assert(s.skip(field_bytes(f).len() as int) =~= rest);
        assert(rpb_get_req_apply(cur, f, ctx) == Some(RpbGetReqView { timeout: v, ..cur }));
    } else {
        assert(opt_varint_piece(10, opt_u32_code(v)) + rest =~= rest);
        assert((RpbGetReqView { timeout: v, ..cur }) == cur);
    }
}

proof fn lemma_rpb_get_req_field_sloppy_quorum(cur: RpbGetReqView, v: Option<bool>, rest: Seq<u8>, ctx: nat)
    requires
        cur.sloppy_quorum == rpb_get_req_empty().sloppy_quorum,
        (opt_varint_piece(11, opt_bool_code(v)) + rest).len() < 0x1_0000_0000_0000_0000,
        ctx >= 0,
    ensures
        rpb_get_req_merge(cur, opt_varint_piece(11, opt_bool_code(v)) + rest, ctx) == rpb_get_req_merge((RpbGetReqView { sloppy_quorum: v, ..cur }), rest, ctx),
{
    if v is Some {
        let f = varint_field(11, bool_code(v->0));
        let s = opt_varint_piece(11, opt_bool_code(v)) + rest;
        lemma_field_roundtrip(f, rest, ctx);
        lemma_field_parse_len(s, ctx);
        assert(s.skip(field_bytes(f).len() as int) =~= rest);
        assert(rpb_get_req_apply(cur, f, ctx) == Some(RpbGetReqView { sloppy_quorum: v, ..cur }));
    } else {
        assert(opt_varint_piece(11, opt_bool_code(v)) + rest =~= rest);
        assert((RpbGetReqView { sloppy_quorum: v, ..cur }) == cur);
    }
}

proof fn lemma_rpb_get_req_field_n_val(cur: RpbGetReqView, v: Option<u32>, rest: Seq<u8>, ctx: nat)
    requires
        cur.n_val == rpb_get_req_empty().n_val,
        (opt_varint_piece(12, opt_u32_code(v)) + rest).len() < 0x1_0000_0000_0000_0000,
        ctx >= 0,
    ensures
        rpb_get_req_merge(cur, opt_varint_piece(12, opt_u32_code(v)) + rest, ctx) == rpb_get_req_merge((RpbGetReqView { n_val: v, ..cur }), rest, ctx),
{
    if v is Some {
        let f = varint_field(12, v->0 as u64);
        let s = opt_varint_piece(12, opt_u32_code(v)) + rest;
        lemma_field_roundtrip(f, rest, ctx);
        lemma_field_parse_len(s, ctx);
        assert(s.skip(field_bytes(f).len() as int) =~= rest);
        assert(rpb_get_req_apply(cur, f, ctx) == Some(RpbGetReqView { n_val: v, ..cur }));
    } else {
        assert(opt_varint_piece(12, opt_u32_code(v)) + rest =~= rest);
        assert((RpbGetReqView { n_val: v, ..cur }) == cur);
    }
}

proof fn lemma_rpb_get_req_field_bucket_type(cur: RpbGetReqView, v: Option<Seq<u8>>, rest: Seq<u8>, ctx: nat)
    requires
        cur.bucket_type == rpb_get_req_empty().bucket_type,
        (opt_bytes_piece(13, v) + rest).len() < 0x1_0000_0000_0000_0000,
        ctx >= 0,
    ensures
        rpb_get_req_merge(cur, opt_bytes_piece(13, v) + rest, ctx) == rpb_get_req_merge((RpbGetReqView { bucket_type: v, ..cur }), rest, ctx),
{
    if v is Some {
        let f = bytes_field(13, v->0);
        let s = opt_bytes_piece(13, v) + rest;
        lemma_field_roundtrip(f, rest, ctx);
        lemma_field_parse_len(s, ctx);
        assert(s.skip(field_bytes(f).len() as int) =~= rest);
        assert(rpb_get_req_apply(cur, f, ctx) == Some(RpbGetReqView { bucket_type: v, ..cur }));
    } else {
        assert(opt_bytes_piece(13, v) + rest =~= rest);
        assert((RpbGetReqView { bucket_type: v, ..cur }) == cur);
    }
}

/// A `RpbGetReq` written to bytes merges back into an empty one as itself,
/// with an allowance of at least 0.
#[verifier::rlimit(50)]
pub proof fn lemma_rpb_get_req_reads_back(m: RpbGetReqView, ctx: nat)
    requires
        rpb_get_req_bytes(m).len() < 0x1_0000_0000_0000_0000,
        ctx >= 0,
    ensures
        rpb_get_req_merge(rpb_get_req_empty(), rpb_get_req_bytes(m), ctx) == Some(m),
{
    let p0 = bytes_piece(1, m.bucket);
    let p1 = bytes_piece(2, m.key);
    let p2 = opt_varint_piece(3, opt_u32_code(m.r));
    let p3 = opt_varint_piece(4, opt_u32_code(m.pr));
    let p4 = opt_varint_piece(5, opt_bool_code(m.basic_quorum));
    let p5 = opt_varint_piece(6, opt_bool_code(m.notfound_ok));
    let p6 = opt_bytes_piece(7, m.if_modified);
    let p7 = opt_varint_piece(8, opt_bool_code(m.head));
    let p8 = opt_varint_piece(9, opt_bool_code(m.deletedvclock));
    let p9 = opt_varint_piece(10, opt_u32_code(m.timeout));
    let p10 = opt_varint_piece(11, opt_bool_code(m.sloppy_quorum));
    let p11 = opt_varint_piece(12, opt_u32_code(m.n_val));
    let p12 = opt_bytes_piece(13, m.bucket_type);
    let s13 = Seq::<u8>::empty();
    let s12 = p12 + s13;
    let s11 = p11 + s12;
    let s10 = p10 + s11;
    let s9 = p9 + s10;
    let s8 = p8 + s9;
    let s7 = p7 + s8;
    let s6 = p6 + s7;
    let s5 = p5 + s6;
    let s4 = p4 + s5;
    let s3 = p3 + s4;
    let s2 = p2 + s3;
    let s1 = p1 + s2;
    let s0 = p0 + s1;
    assert(rpb_get_req_bytes(m) == s0) by {
        lemma_concat_assoc(p0, p1, s2);
        lemma_concat_assoc(p0 + p1, p2, s3);
        lemma_concat_assoc(p0 + p1 + p2, p3, s4);
        lemma_concat_assoc(p0 + p1 + p2 + p3, p4, s5);
        lemma_concat_assoc(p0 + p1 + p2 + p3 + p4, p5, s6);
        lemma_concat_assoc(p0 + p1 + p2 + p3 + p4 + p5, p6, s7);
        lemma_concat_assoc(p0 + p1 + p2 + p3 + p4 + p5 + p6, p7, s8);
        lemma_concat_assoc(p0 + p1 + p2 + p3 + p4 + p5 + p6 + p7, p8, s9);
        lemma_concat_assoc(p0 + p1 + p2 + p3 + p4 + p5 + p6 + p7 + p8, p9, s10);
        lemma_concat_assoc(p0 + p1 + p2 + p3 + p4 + p5 + p6 + p7 + p8 + p9, p10, s11);
        lemma_concat_assoc(p0 + p1 + p2 + p3 + p4 + p5 + p6 + p7 + p8 + p9 + p10, p11, s12);
        lemma_concat_assoc(p0 + p1 + p2 + p3 + p4 + p5 + p6 + p7 + p8 + p9 + p10 + p11, p12, s13);
        assert(p0 + p1 + p2 + p3 + p4 + p5 + p6 + p7 + p8 + p9 + p10 + p11 + p12 + s13 =~= p0 + p1 + p2 + p3 + p4 + p5 + p6 + p7 + p8 + p9 + p10 + p11 + p12);
    }
    let m0 = rpb_get_req_empty();
    let m1 = RpbGetReqView { bucket: m.bucket, ..m0 };
    let m2 = RpbGetReqView { key: m.key, ..m1 };
    let m3 = RpbGetReqView { r: m.r, ..m2 };
    let m4 = RpbGetReqView { pr: m.pr, ..m3 };
    let m5 = RpbGetReqView { basic_quorum: m.basic_quorum, ..m4 };
    let m6 = RpbGetReqView { notfound_ok: m.notfound_ok, ..m5 };
    let m7 = RpbGetReqView { if_modified: m.if_modified, ..m6 };
    let m8 = RpbGetReqView { head: m.head, ..m7 };
    let m9 = RpbGetReqView { deletedvclock: m.deletedvclock, ..m8 };
    let m10 = RpbGetReqView { timeout: m.timeout, ..m9 };
    let m11 = RpbGetReqView { sloppy_quorum: m.sloppy_quorum, ..m10 };
    let m12 = RpbGetReqView { n_val: m.n_val, ..m11 };
    let m13 = RpbGetReqView { bucket_type: m.bucket_type, ..m12 };
    lemma_rpb_get_req_field_bucket(m0, m.bucket, s1, ctx);
    lemma_rpb_get_req_field_key(m1, m.key, s2, ctx);
    lemma_rpb_get_req_field_r(m2, m.r, s3, ctx);
    lemma_rpb_get_req_field_pr(m3, m.pr, s4, ctx);
    lemma_rpb_get_req_field_basic_quorum(m4, m.basic_quorum, s5, ctx);
    lemma_rpb_get_req_field_notfound_ok(m5, m.notfound_ok, s6, ctx);
    lemma_rpb_get_req_field_if_modified(m6, m.if_modified, s7, ctx);
    lemma_rpb_get_req_field_head(m7, m.head, s8, ctx);
    lemma_rpb_get_req_field_deletedvclock(m8, m.deletedvclock, s9, ctx);
    lemma_rpb_get_req_field_timeout(m9, m.timeout, s10, ctx);
    lemma_rpb_get_req_field_sloppy_quorum(m10, m.sloppy_quorum, s11, ctx);
    lemma_rpb_get_req_field_n_val(m11, m.n_val, s12, ctx);
    lemma_rpb_get_req_field_bucket_type(m12, m.bucket_type, s13, ctx);
    assert(m13 == m);
}

/// A `RpbGetReq` written to bytes reads back as itself.
pub proof fn lemma_rpb_get_req_roundtrip(m: RpbGetReqView)
    requires
        rpb_get_req_bytes(m).len() < 0x1_0000_0000_0000_0000,
    ensures
        rpb_get_req_decode(rpb_get_req_bytes(m)) == Some(m),
{
    lemma_rpb_get_req_reads_back(m, 100);
}

proof fn lemma_rpb_get_resp_rep_content(m0: RpbGetRespView, s: Seq<RpbContentView>, rest: Seq<u8>, ctx: nat)
    requires
        (rep_bytes_piece(1, s.map_values(|v: RpbContentView| rpb_content_bytes(v))) + rest).len() < 0x1_0000_0000_0000_0000,
        ctx >= 2,
    ensures
        rpb_get_resp_merge(m0, rep_bytes_piece(1, s.map_values(|v: RpbContentView| rpb_content_bytes(v))) + rest, ctx) == rpb_get_resp_merge((RpbGetRespView { content: m0.content + s, ..m0 }), rest, ctx),
    decreases s.len(),
{
    let bs = s.map_values(|v: RpbContentView| rpb_content_bytes(v));
    if s.len() == 0 {
        assert(rep_bytes_piece(1, bs) + rest =~= rest);
        assert(m0.content + s =~= m0.content);
        assert((RpbGetRespView { content: m0.content + s, ..m0 }) == m0);
    } else {
        let s2 = s.drop_last();
        let x = s.last();
        let f = bytes_field(1, rpb_content_bytes(x));
        let bs2 = s2.map_values(|v: RpbContentView| rpb_content_bytes(v));
        assert(bs.drop_last() =~= bs2);
        assert(rep_bytes_piece(1, bs) + rest =~= rep_bytes_piece(1, bs2) + (field_bytes(f) + rest));
        lemma_rpb_get_resp_rep_content(m0, s2, field_bytes(f) + rest, ctx);
        let m1 = RpbGetRespView { content: m0.content + s2, ..m0 };
        let tail = field_bytes(f) + rest;
        lemma_field_roundtrip(f, rest, ctx);
        lemma_field_parse_len(tail, ctx);
        assert(tail.skip(field_bytes(f).len() as int) =~= rest);
        lemma_rpb_content_reads_back(x, (ctx - 1) as nat);
        assert(m1.content.push(x) =~= m0.content + s);
        assert(rpb_get_resp_apply(m1, f, ctx) == Some(RpbGetRespView { content: m0.content + s, ..m0 }));
    }
}

proof fn lemma_rpb_get_resp_field_vclock(cur: RpbGetRespView, v: Option<Seq<u8>>, rest: Seq<u8>, ctx: nat)
    requires
        cur.vclock == rpb_get_resp_empty().vclock,
        (opt_bytes_piece(2, v) + rest).len() < 0x1_0000_0000_0000_0000,
        ctx >= 2,
    ensures
        rpb_get_resp_merge(cur, opt_bytes_piece(2, v) + rest, ctx) == rpb_get_resp_merge((RpbGetRespView { vclock: v, ..cur }), rest, ctx),
{
    if v is Some {
        let f = bytes_field(2, v->0);
        let s = opt_bytes_piece(2, v) + rest;
        lemma_field_roundtrip(f, rest, ctx);
        lemma_field_parse_len(s, ctx);
        assert(s.skip(field_bytes(f).len() as int) =~= rest);
        assert(rpb_get_resp_apply(cur, f, ctx) == Some(RpbGetRespView { vclock: v, ..cur }));
    } else {
        assert(opt_bytes_piece(2, v) + rest =~= rest);
        assert((RpbGetRespView { vclock: v, ..cur }) == cur);
    }
}

proof fn lemma_rpb_get_resp_field_unchanged(cur: RpbGetRespView, v: Option<bool>, rest: Seq<u8>, ctx: nat)
    requires
        cur.unchanged == rpb_get_resp_empty().unchanged,
        (opt_varint_piece(3, opt_bool_code(v)) + rest).len() < 0x1_0000_0000_0000_0000,
        ctx >= 2,
    ensures
        rpb_get_resp_merge(cur, opt_varint_piece(3, opt_bool_code(v)) + rest, ctx) == rpb_get_resp_merge((RpbGetRespView { unchanged: v, ..cur }), rest, ctx),
{
    if v is Some {
        let f = varint_field(3, bool_code(v->0));
        let s = opt_varint_piece(3, opt_bool_code(v)) + rest;
        lemma_field_roundtrip(f, rest, ctx);
        lemma_field_parse_len(s, ctx);
        assert(s.skip(field_bytes(f).len() as int) =~= rest);
        assert(rpb_get_resp_apply(cur, f, ctx) == Some(RpbGetRespView { unchanged: v, ..cur }));
    } else {
        assert(opt_varint_piece(3, opt_bool_code(v)) + rest =~= rest);
        assert((RpbGetRespView { unchanged: v, ..cur }) == cur);
    }
}

/// A `RpbGetResp` written to bytes merges back into an empty one as itself,
/// with an allowance of at least 2.
#[verifier::rlimit(50)]
pub proof fn lemma_rpb_get_resp_reads_back(m: RpbGetRespView, ctx: nat)
    requires
        rpb_get_resp_bytes(m).len() < 0x1_0000_0000_0000_0000,
        ctx >= 2,
    ensures
        rpb_get_resp_merge(rpb_get_resp_empty(), rpb_get_resp_bytes(m), ctx) == Some(m),
{
    let p0 = rep_bytes_piece(1, m.content.map_values(|s: RpbContentView| rpb_content_bytes(s)));
    let p1 = opt_bytes_piece(2, m.vclock);
    let p2 = opt_varint_piece(3, opt_bool_code(m.unchanged));
    let s3 = Seq::<u8>::empty();
    let s2 = p2 + s3;
    let s1 = p1 + s2;
    let s0 = p0 + s1;
    assert(rpb_get_resp_bytes(m) == s0) by {
        lemma_concat_assoc(p0, p1, s2);
        lemma_concat_assoc(p0 + p1, p2, s3);
        assert(p0 + p1 + p2 + s3 =~= p0 + p1 + p2);
    }
    let m0 = rpb_get_resp_empty();
    let m1 = RpbGetRespView { content: m.content, ..m0 };
    let m2 = RpbGetRespView { vclock: m.vclock, ..m1 };
    let m3 = RpbGetRespView { unchanged: m.unchanged, ..m2 };
    lemma_rpb_get_resp_rep_content(m0, m.content, s1, ctx);
    assert(m0.content + m.content =~= m.content);
    lemma_rpb_get_resp_field_vclock(m1, m.vclock, s2, ctx);
    lemma_rpb_get_resp_field_unchanged(m2, m.unchanged, s3, ctx);
    assert(m3 == m);
}

/// A `RpbGetResp` written to bytes reads back as itself.
pub proof fn lemma_rpb_get_resp_roundtrip(m: RpbGetRespView)
    requires
        rpb_get_resp_bytes(m).len() < 0x1_0000_0000_0000_0000,
    ensures
        rpb_get_resp_decode(rpb_get_resp_bytes(m)) == Some(m),
{
    lemma_rpb_get_resp_reads_back(m, 100);
}

proof fn lemma_rpb_put_req_field_bucket(cur: RpbPutReqView, v: Seq<u8>, rest: Seq<u8>, ctx: nat)
    requires
        cur.bucket == rpb_put_req_empty().bucket,
        (bytes_piece(1, v) + rest).len() < 0x1_0000_0000_0000_0000,
        ctx >= 2,
    ensures
        rpb_put_req_merge(cur, bytes_piece(1, v) + rest, ctx) == rpb_put_req_merge((RpbPutReqView { bucket: v, ..cur }), rest, ctx),
{
    let f = bytes_field(1, v);
    let s = bytes_piece(1, v) + rest;
    lemma_field_roundtrip(f, rest, ctx);
    lemma_field_parse_len(s, ctx);
    assert(s.skip(field_bytes(f).len() as int) =~= rest);
    assert(rpb_put_req_apply(cur, f, ctx) == Some(RpbPutReqView { bucket: v, ..cur }));
}

proof fn lemma_rpb_put_req_field_key(cur: RpbPutReqView, v: Option<Seq<u8>>, rest: Seq<u8>, ctx: nat)
    requires
        cur.key == rpb_put_req_empty().key,
        (opt_bytes_piece(2, v) + rest).len() < 0x1_0000_0000_0000_0000,
        ctx >= 2,
    ensures
        rpb_put_req_merge(cur, opt_bytes_piece(2, v) + rest, ctx) == rpb_put_req_merge((RpbPutReqView { key: v, ..cur }), rest, ctx),
{
    if v is Some {
        let f = bytes_field(2, v->0);
        let s = opt_bytes_piece(2, v) + rest;
        lemma_field_roundtrip(f, rest, ctx);
        lemma_field_parse_len(s, ctx);
        assert(s.skip(field_bytes(f).len() as int) =~= rest);
        assert(rpb_put_req_apply(cur, f, ctx) == Some(RpbPutReqView { key: v, ..cur }));
    } else {
        assert(opt_bytes_piece(2, v) + rest =~= rest);
        assert((RpbPutReqView { key: v, ..cur }) == cur);
    }
}

proof fn lemma_rpb_put_req_field_vclock(cur: RpbPutReqView, v: Option<Seq<u8>>, rest: Seq<u8>, ctx: nat)
    requires
        cur.vclock == rpb_put_req_empty().vclock,
        (opt_bytes_piece(3, v) + rest).len() < 0x1_0000_0000_0000_0000,
        ctx >= 2,
    ensures
        rpb_put_req_merge(cur, opt_bytes_piece(3, v) + rest, ctx) == rpb_put_req_merge((RpbPutReqView { vclock: v, ..cur }), rest, ctx),
{
    if v is Some {
        let f = bytes_field(3, v->0);
        let s = opt_bytes_piece(3, v) + rest;
        lemma_field_roundtrip(f, rest, ctx);
        lemma_field_parse_len(s, ctx);
        assert(s.skip(field_bytes(f).len() as int) =~= rest);
        assert(rpb_put_req_apply(cur, f, ctx) == Some(RpbPutReqView { vclock: v, ..cur }));
    } else {
        assert(opt_bytes_piece(3, v) + rest =~= rest);
        assert((RpbPutReqView { vclock: v, ..cur }) == cur);
    }
}

#[verifier::rlimit(50)]
proof fn lemma_rpb_put_req_field_content(cur: RpbPutReqView, v: RpbContentView, rest: Seq<u8>, ctx: nat)
    requires
        cur.content == rpb_put_req_empty().content,
        (bytes_piece(4, rpb_content_bytes(v)) + rest).len() < 0x1_0000_0000_0000_0000,
        ctx >= 2,
    ensures
        rpb_put_req_merge(cur, bytes_piece(4, rpb_content_bytes(v)) + rest, ctx) == rpb_put_req_merge((RpbPutReqView { content: v, ..cur }), rest, ctx),
{
    let f = bytes_field(4, rpb_content_bytes(v));
    let s = bytes_piece(4, rpb_content_bytes(v)) + rest;
    lemma_field_roundtrip(f, rest, ctx);
    lemma_field_parse_len(s, ctx);
    assert(s.skip(field_bytes(f).len() as int) =~= rest);
    lemma_rpb_content_reads_back(v, (ctx - 1) as nat);
    assert(rpb_put_req_apply(cur, f, ctx) == Some(RpbPutReqView { content: v, ..cur }));
}

proof fn lemma_rpb_put_req_field_w(cur: RpbPutReqView, v: Option<u32>, rest: Seq<u8>, ctx: nat)
    requires
        cur.w == rpb_put_req_empty().w,
        (opt_varint_piece(5, opt_u32_code(v)) + rest).len() < 0x1_0000_0000_0000_0000,
        ctx >= 2,
    ensures
        rpb_put_req_merge(cur, opt_varint_piece(5, opt_u32_code(v)) + rest, ctx) == rpb_put_req_merge((RpbPutReqView { w: v, ..cur }), rest, ctx),
{
    if v is Some {
        let f = varint_field(5, v->0 as u64);
        let s = opt_varint_piece(5, opt_u32_code(v)) + rest;
        lemma_field_roundtrip(f, rest, ctx);
        lemma_field_parse_len(s, ctx);
        assert(s.skip(field_bytes(f).len() as int) =~= rest);
        assert(rpb_put_req_apply(cur, f, ctx) == Some(RpbPutReqView { w: v, ..cur }));
    } else {
        assert(opt_varint_piece(5, opt_u32_code(v)) + rest =~= rest);
        assert((RpbPutReqView { w: v, ..cur }) == cur);
    }
}

proof fn lemma_rpb_put_req_field_dw(cur: RpbPutReqView, v: Option<u32>, rest: Seq<u8>, ctx: nat)
    requires
        cur.dw == rpb_put_req_empty().dw,
        (opt_varint_piece(6, opt_u32_code(v)) + rest).len() < 0x1_0000_0000_0000_0000,
        ctx >= 2,
    ensures
        rpb_put_req_merge(cur, opt_varint_piece(6, opt_u32_code(v)) + rest, ctx) == rpb_put_req_merge((RpbPutReqView { dw: v, ..cur }), rest, ctx),
{
    if v is Some {
        let f = varint_field(6, v->0 as u64);
        let s = opt_varint_piece(6, opt_u32_code(v)) + rest;
        lemma_field_roundtrip(f, rest, ctx);
        lemma_field_parse_len(s, ctx);
        assert(s.skip(field_bytes(f).len() as int) =~= rest);
        assert(rpb_put_req_apply(cur, f, ctx) == Some(RpbPutReqView { dw: v, ..cur }));
    } else {
        assert(opt_varint_piece(6, opt_u32_code(v)) + rest =~= rest);
        assert((RpbPutReqView { dw: v, ..cur }) == cur);
    }
}

proof fn lemma_rpb_put_req_field_return_body(cur: RpbPutReqView, v: Option<bool>, rest: Seq<u8>, ctx: nat)
    requires
        cur.return_body == rpb_put_req_empty().return_body,
        (opt_varint_piece(7, opt_bool_code(v)) + rest).len() < 0x1_0000_0000_0000_0000,
        ctx >= 2,
    ensures
        rpb_put_req_merge(cur, opt_varint_piece(7, opt_bool_code(v)) + rest, ctx) == rpb_put_req_merge((RpbPutReqView { return_body: v, ..cur }), rest, ctx),
{
    if v is Some {
        let f = varint_field(7, bool_code(v->0));
        let s = opt_varint_piece(7, opt_bool_code(v)) + rest;
        lemma_field_roundtrip(f, rest, ctx);
        lemma_field_parse_len(s, ctx);
        assert(s.skip(field_bytes(f).len() as int) =~= rest);
        assert(rpb_put_req_apply(cur, f, ctx) == Some(RpbPutReqView { return_body: v, ..cur }));
    } else {
        assert(opt_varint_piece(7, opt_bool_code(v)) + rest =~= rest);
        assert((RpbPutReqView { return_body: v, ..cur }) == cur);
    }
}

proof fn lemma_rpb_put_req_field_pw(cur: RpbPutReqView, v: Option<u32>, rest: Seq<u8>, ctx: nat)
    requires
        cur.pw == rpb_put_req_empty().pw,
        (opt_varint_piece(8, opt_u32_code(v)) + rest).len() < 0x1_0000_0000_0000_0000,
        ctx >= 2,
    ensures
        rpb_put_req_merge(cur, opt_varint_piece(8, opt_u32_code(v)) + rest, ctx) == rpb_put_req_merge((RpbPutReqView { pw: v, ..cur }), rest, ctx),
{
    if v is Some {
        let f = varint_field(8, v->0 as u64);
        let s = opt_varint_piece(8, opt_u32_code(v)) + rest;
        lemma_field_roundtrip(f, rest, ctx);
        lemma_field_parse_len(s, ctx);
        assert(s.skip(field_bytes(f).len() as int) =~= rest);
        assert(rpb_put_req_apply(cur, f, ctx) == Some(RpbPutReqView { pw: v, ..cur }));
    } else {
        assert(opt_varint_piece(8, opt_u32_code(v)) + rest =~= rest);
        assert((RpbPutReqView { pw: v, ..cur }) == cur);
    }
}

proof fn lemma_rpb_put_req_field_if_not_modified(cur: RpbPutReqView, v: Option<bool>, rest: Seq<u8>, ctx: nat)
    requires
        cur.if_not_modified == rpb_put_req_empty().if_not_modified,
        (opt_varint_piece(9, opt_bool_code(v)) + rest).len() < 0x1_0000_0000_0000_0000,
        ctx >= 2,
    ensures
        rpb_put_req_merge(cur, opt_varint_piece(9, opt_bool_code(v)) + rest, ctx) == rpb_put_req_merge((RpbPutReqView { if_not_modified: v, ..cur }), rest, ctx),
{
    if v is Some {
        let f = varint_field(9, bool_code(v->0));
        let s = opt_varint_piece(9, opt_bool_code(v)) + rest;
        lemma_field_roundtrip(f, rest, ctx);
        lemma_field_parse_len(s, ctx);
        assert(s.skip(field_bytes(f).len() as int) =~= rest);
        assert(rpb_put_req_apply(cur, f, ctx) == Some(RpbPutReqView { if_not_modified: v, ..cur }));
    } else {
        assert(opt_varint_piece(9, opt_bool_code(v)) + rest =~= rest);
        assert((RpbPutReqView { if_not_modified: v, ..cur }) == cur);
    }
}

proof fn lemma_rpb_put_req_field_if_none_match(cur: RpbPutReqView, v: Option<bool>, rest: Seq<u8>, ctx: nat)
    requires
        cur.if_none_match == rpb_put_req_empty().if_none_match,
        (opt_varint_piece(10, opt_bool_code(v)) + rest).len() < 0x1_0000_0000_0000_0000,
        ctx >= 2,
    ensures
        rpb_put_req_merge(cur, opt_varint_piece(10, opt_bool_code(v)) + rest, ctx) == rpb_put_req_merge((RpbPutReqView { if_none_match: v, ..cur }), rest, ctx),
{
    if v is Some {
        let f = varint_field(10, bool_code(v->0));
        let s = opt_varint_piece(10, opt_bool_code(v)) + rest;
        lemma_field_roundtrip(f, rest, ctx);
        lemma_field_parse_len(s, ctx);
        assert(s.skip(field_bytes(f).len() as int) =~= rest);
        assert(rpb_put_req_apply(cur, f, ctx) == Some(RpbPutReqView { if_none_match: v, ..cur }));
    } else {
        assert(opt_varint_piece(10, opt_bool_code(v)) + rest =~= rest);
        assert((RpbPutReqView { if_none_match: v, ..cur }) == cur);
    }
}

proof fn lemma_rpb_put_req_field_return_head(cur: RpbPutReqView, v: Option<bool>, rest: Seq<u8>, ctx: nat)
    requires
        cur.return_head == rpb_put_req_empty().return_head,
        (opt_varint_piece(11, opt_bool_code(v)) + rest).len() < 0x1_0000_0000_0000_0000,
        ctx >= 2,
    ensures
        rpb_put_req_merge(cur, opt_varint_piece(11, opt_bool_code(v)) + rest, ctx) == rpb_put_req_merge((RpbPutReqView { return_head: v, ..cur }), rest, ctx),
{
    if v is Some {
        let f = varint_field(11, bool_code(v->0));
        let s = opt_varint_piece(11, opt_bool_code(v)) + rest;
        lemma_field_roundtrip(f, rest, ctx);
        lemma_field_parse_len(s, ctx);
        assert(s.skip(field_bytes(f).len() as int) =~= rest);
        assert(rpb_put_req_apply(cur, f, ctx) == Some(RpbPutReqView { return_head: v, ..cur }));
    } else {
        assert(opt_varint_piece(11, opt_bool_code(v)) + rest =~= rest);
        assert((RpbPutReqView { return_head: v, ..cur }) == cur);
    }
}

proof fn lemma_rpb_put_req_field_timeout(cur: RpbPutReqView, v: Option<u32>, rest: Seq<u8>, ctx: nat)
    requires
        cur.timeout == rpb_put_req_empty().timeout,
        (opt_varint_piece(12, opt_u32_code(v)) + rest).len() < 0x1_0000_0000_0000_0000,
        ctx >= 2,
    ensures
        rpb_put_req_merge(cur, opt_varint_piece(12, opt_u32_code(v)) + rest, ctx) == rpb_put_req_merge((RpbPutReqView { timeout: v, ..cur }), rest, ctx),
{
    if v is Some {
        let f = varint_field(12, v->0 as u64);
        let s = opt_varint_piece(12, opt_u32_code(v)) + rest;
        lemma_field_roundtrip(f, rest, ctx);
        lemma_field_parse_len(s, ctx);
        assert(s.skip(field_bytes(f).len() as int) =~= rest);
        assert(rpb_put_req_apply(cur, f, ctx) == Some(RpbPutReqView { timeout: v, ..cur }));
    } else {
        assert(opt_varint_piece(12, opt_u32_code(v)) + rest =~= rest);
        assert((RpbPutReqView { timeout: v, ..cur }) == cur);
    }
}

proof fn lemma_rpb_put_req_field_asis(cur: RpbPutReqView, v: Option<bool>, rest: Seq<u8>, ctx: nat)
    requires
        cur.asis == rpb_put_req_empty().asis,
        (opt_varint_piece(13, opt_bool_code(v)) + rest).len() < 0x1_0000_0000_0000_0000,
        ctx >= 2,
    ensures
        rpb_put_req_merge(cur, opt_varint_piece(13, opt_bool_code(v)) + rest, ctx) == rpb_put_req_merge((RpbPutReqView { asis: v, ..cur }), rest, ctx),
{
    if v is Some {
        let f = varint_field(13, bool_code(v->0));
        let s = opt_varint_piece(13, opt_bool_code(v)) + rest;
        lemma_field_roundtrip(f, rest, ctx);
        lemma_field_parse_len(s, ctx);
        assert(s.skip(field_bytes(f).len() as int) =~= rest);
        assert(rpb_put_req_apply(cur, f, ctx) == Some(RpbPutReqView { asis: v, ..cur }));
    } else {
        assert(opt_varint_piece(13, opt_bool_code(v)) + rest =~= rest);
        assert((RpbPutReqView { asis: v, ..cur }) == cur);
    }
}

proof fn lemma_rpb_put_req_field_sloppy_quorum(cur: RpbPutReqView, v: Option<bool>, rest: Seq<u8>, ctx: nat)
    requires
        cur.sloppy_quorum == rpb_put_req_empty().sloppy_quorum,
        (opt_varint_piece(14, opt_bool_code(v)) + rest).len() < 0x1_0000_0000_0000_0000,
        ctx >= 2,
    ensures
        rpb_put_req_merge(cur, opt_varint_piece(14, opt_bool_code(v)) + rest, ctx) == rpb_put_req_merge((RpbPutReqView { sloppy_quorum: v, ..cur }), rest, ctx),
{
    if v is Some {
        let f = varint_field(14, bool_code(v->0));
        let s = opt_varint_piece(14, opt_bool_code(v)) + rest;
        lemma_field_roundtrip(f, rest, ctx);
        lemma_field_parse_len(s, ctx);
        assert(s.skip(field_bytes(f).len() as int) =~= rest);
        assert(rpb_put_req_apply(cur, f, ctx) == Some(RpbPutReqView { sloppy_quorum: v, ..cur }));
    } else {
        assert(opt_varint_piece(14, opt_bool_code(v)) + rest =~= rest);
        assert((RpbPutReqView { sloppy_quorum: v, ..cur }) == cur);
    }
}

proof fn lemma_rpb_put_req_field_n_val(cur: RpbPutReqView, v: Option<u32>, rest: Seq<u8>, ctx: nat)
    requires
        cur.n_val == rpb_put_req_empty().n_val,
        (opt_varint_piece(15, opt_u32_code(v)) + rest).len() < 0x1_0000_0000_0000_0000,
        ctx >= 2,
    ensures
        rpb_put_req_merge(cur, opt_varint_piece(15, opt_u32_code(v)) + rest, ctx) == rpb_put_req_merge((RpbPutReqView { n_val: v, ..cur }), rest, ctx),
{
    if v is Some {
        let f = varint_field(15, v->0 as u64);
        let s = opt_varint_piece(15, opt_u32_code(v)) + rest;
        lemma_field_roundtrip(f, rest, ctx);
        lemma_field_parse_len(s, ctx);
        assert(s.skip(field_bytes(f).len() as int) =~= rest);
        assert(rpb_put_req_apply(cur, f, ctx) == Some(RpbPutReqView { n_val: v, ..cur }));
    } else {
        assert(opt_varint_piece(15, opt_u32_code(v)) + rest =~= rest);
        assert((RpbPutReqView { n_val: v, ..cur }) == cur);
    }
}

proof fn lemma_rpb_put_req_field_bucket_type(cur: RpbPutReqView, v: Option<Seq<u8>>, rest: Seq<u8>, ctx: nat)
    requires
        cur.bucket_type == rpb_put_req_empty().bucket_type,
        (opt_bytes_piece(16, v) + rest).len() < 0x1_0000_0000_0000_0000,
        ctx >= 2,
    ensures
        rpb_put_req_merge(cur, opt_bytes_piece(16, v) + rest, ctx) == rpb_put_req_merge((RpbPutReqView { bucket_type: v, ..cur }), rest, ctx),
{
    if v is Some {
        let f = bytes_field(16, v->0);
        let s = opt_bytes_piece(16, v) + rest;
        lemma_field_roundtrip(f, rest, ctx);
        lemma_field_parse_len(s, ctx);
        assert(s.skip(field_bytes(f).len() as int) =~= rest);
        assert(rpb_put_req_apply(cur, f, ctx) == Some(RpbPutReqView { bucket_type: v, ..cur }));
    } else {
        assert(opt_bytes_piece(16, v) + rest =~= rest);
        assert((RpbPutReqView { bucket_type: v, ..cur }) == cur);
    }
}

/// A `RpbPutReq` written to bytes merges back into an empty one as itself,
/// with an allowance of at least 2.
#[verifier::rlimit(50)]
pub proof fn lemma_rpb_put_req_reads_back(m: RpbPutReqView, ctx: nat)
    requires
        rpb_put_req_bytes(m).len() < 0x1_0000_0000_0000_0000,
        ctx >= 2,
    ensures
        rpb_put_req_merge(rpb_put_req_empty(), rpb_put_req_bytes(m), ctx) == Some(m),
{
    let p0 = bytes_piece(1, m.bucket);
    let p1 = opt_bytes_piece(2, m.key);
    let p2 = opt_bytes_piece(3, m.vclock);
    let p3 = bytes_piece(4, rpb_content_bytes(m.content));
    let p4 = opt_varint_piece(5, opt_u32_code(m.w));
    let p5 = opt_varint_piece(6, opt_u32_code(m.dw));
    let p6 = opt_varint_piece(7, opt_bool_code(m.return_body));
    let p7 = opt_varint_piece(8, opt_u32_code(m.pw));
    let p8 = opt_varint_piece(9, opt_bool_code(m.if_not_modified));
    let p9 = opt_varint_piece(10, opt_bool_code(m.if_none_match));
    let p10 = opt_varint_piece(11, opt_bool_code(m.return_head));
    let p11 = opt_varint_piece(12, opt_u32_code(m.timeout));
    let p12 = opt_varint_piece(13, opt_bool_code(m.asis));
    let p13 = opt_varint_piece(14, opt_bool_code(m.sloppy_quorum));
    let p14 = opt_varint_piece(15, opt_u32_code(m.n_val));
    let p15 = opt_bytes_piece(16, m.bucket_type);
    let s16 = Seq::<u8>::empty();
    let s15 = p15 + s16;
    let s14 = p14 + s15;
    let s13 = p13 + s14;
    let s12 = p12 + s13;
    let s11 = p11 + s12;
    let s10 = p10 + s11;
    let s9 = p9 + s10;
    let s8 = p8 + s9;
    let s7 = p7 + s8;
    let s6 = p6 + s7;
    let s5 = p5 + s6;
    let s4 = p4 + s5;
    let s3 = p3 + s4;
    let s2 = p2 + s3;
    let s1 = p1 + s2;
    let s0 = p0 + s1;
    assert(rpb_put_req_bytes(m) == s0) by {
        lemma_concat_assoc(p0, p1, s2);
        lemma_concat_assoc(p0 + p1, p2, s3);
        lemma_concat_assoc(p0 + p1 + p2, p3, s4);
        lemma_concat_assoc(p0 + p1 + p2 + p3, p4, s5);
        lemma_concat_assoc(p0 + p1 + p2 + p3 + p4, p5, s6);
        lemma_concat_assoc(p0 + p1 + p2 + p3 + p4 + p5, p6, s7);
        lemma_concat_assoc(p0 + p1 + p2 + p3 + p4 + p5 + p6, p7, s8);
        lemma_concat_assoc(p0 + p1 + p2 + p3 + p4 + p5 + p6 + p7, p8, s9);
        lemma_concat_assoc(p0 + p1 + p2 + p3 + p4 + p5 + p6 + p7 + p8, p9, s10);
        lemma_concat_assoc(p0 + p1 + p2 + p3 + p4 + p5 + p6 + p7 + p8 + p9, p10, s11);
        lemma_concat_assoc(p0 + p1 + p2 + p3 + p4 + p5 + p6 + p7 + p8 + p9 + p10, p11, s12);
        lemma_concat_assoc(p0 + p1 + p2 + p3 + p4 + p5 + p6 + p7 + p8 + p9 + p10 + p11, p12, s13);
        lemma_concat_assoc(p0 + p1 + p2 + p3 + p4 + p5 + p6 + p7 + p8 + p9 + p10 + p11 + p12, p13, s14);
        lemma_concat_assoc(p0 + p1 + p2 + p3 + p4 + p5 + p6 + p7 + p8 + p9 + p10 + p11 + p12 + p13, p14, s15);
        lemma_concat_assoc(p0 + p1 + p2 + p3 + p4 + p5 + p6 + p7 + p8 + p9 + p10 + p11 + p12 + p13 + p14, p15, s16);
        assert(p0 + p1 + p2 + p3 + p4 + p5 + p6 + p7 + p8 + p9 + p10 + p11 + p12 + p13 + p14 + p15 + s16 =~= p0 + p1 + p2 + p3 + p4 + p5 + p6 + p7 + p8 + p9 + p10 + p11 + p12 + p13 + p14 + p15);
    }
    let m0 = rpb_put_req_empty();
    let m1 = RpbPutReqView { bucket: m.bucket, ..m0 };
    let m2 = RpbPutReqView { key: m.key, ..m1 };
    let m3 = RpbPutReqView { vclock: m.vclock, ..m2 };
    let m4 = RpbPutReqView { content: m.content, ..m3 };
    let m5 = RpbPutReqView { w: m.w, ..m4 };
    let m6 = RpbPutReqView { dw: m.dw, ..m5 };
    let m7 = RpbPutReqView { return_body: m.return_body, ..m6 };
    let m8 = RpbPutReqView { pw: m.pw, ..m7 };
    let m9 = RpbPutReqView { if_not_modified: m.if_not_modified, ..m8 };
    let m10 = RpbPutReqView { if_none_match: m.if_none_match, ..m9 };
    let m11 = RpbPutReqView { return_head: m.return_head, ..m10 };
    let m12 = RpbPutReqView { timeout: m.timeout, ..m11 };
    let m13 = RpbPutReqView { asis: m.asis, ..m12 };
    let m14 = RpbPutReqView { sloppy_quorum: m.sloppy_quorum, ..m13 };
    let m15 = RpbPutReqView { n_val: m.n_val, ..m14 };
    let m16 = RpbPutReqView { bucket_type: m.bucket_type, ..m15 };
    lemma_rpb_put_req_field_bucket(m0, m.bucket, s1, ctx);
    lemma_rpb_put_req_field_key(m1, m.key, s2, ctx);
    lemma_rpb_put_req_field_vclock(m2, m.vclock, s3, ctx);
    lemma_rpb_put_req_field_content(m3, m.content, s4, ctx);
    lemma_rpb_put_req_field_w(m4, m.w, s5, ctx);
    lemma_rpb_put_req_field_dw(m5, m.dw, s6, ctx);
    lemma_rpb_put_req_field_return_body(m6, m.return_body, s7, ctx);
    lemma_rpb_put_req_field_pw(m7, m.pw, s8, ctx);
    lemma_rpb_put_req_field_if_not_modified(m8, m.if_not_modified, s9, ctx);
    lemma_rpb_put_req_field_if_none_match(m9, m.if_none_match, s10, ctx);
    lemma_rpb_put_req_field_return_head(m10, m.return_head, s11, ctx);
    lemma_rpb_put_req_field_timeout(m11, m.timeout, s12, ctx);
    lemma_rpb_put_req_field_asis(m12, m.asis, s13, ctx);
    lemma_rpb_put_req_field_sloppy_quorum(m13, m.sloppy_quorum, s14, ctx);
    lemma_rpb_put_req_field_n_val(m14, m.n_val, s15, ctx);
    lemma_rpb_put_req_field_bucket_type(m15, m.bucket_type, s16, ctx);
    assert(m16 == m);
}

/// A `RpbPutReq` written to bytes reads back as itself.
pub proof fn lemma_rpb_put_req_roundtrip(m: RpbPutReqView)
    requires
        rpb_put_req_bytes(m).len() < 0x1_0000_0000_0000_0000,
    ensures
        rpb_put_req_decode(rpb_put_req_bytes(m)) == Some(m),
{
    lemma_rpb_put_req_reads_back(m, 100);
}

proof fn lemma_rpb_del_req_field_bucket(cur: RpbDelReqView, v: Seq<u8>, rest: Seq<u8>, ctx: nat)
    requires
        cur.bucket == rpb_del_req_empty().bucket,
        (bytes_piece(1, v) + rest).len() < 0x1_0000_0000_0000_0000,
        ctx >= 0,
    ensures
        rpb_del_req_merge(cur, bytes_piece(1, v) + rest, ctx) == rpb_del_req_merge((RpbDelReqView { bucket: v, ..cur }), rest, ctx),
{
    let f = bytes_field(1, v);
    let s = bytes_piece(1, v) + rest;
    lemma_field_roundtrip(f, rest, ctx);
    lemma_field_parse_len(s, ctx);
    assert(s.skip(field_bytes(f).len() as int) =~= rest);
    assert(rpb_del_req_apply(cur, f, ctx) == Some(RpbDelReqView { bucket: v, ..cur }));
}

proof fn lemma_rpb_del_req_field_key(cur: RpbDelReqView, v: Seq<u8>, rest: Seq<u8>, ctx: nat)
    requires
        cur.key == rpb_del_req_empty().key,
        (bytes_piece(2, v) + rest).len() < 0x1_0000_0000_0000_0000,
        ctx >= 0,
    ensures
        rpb_del_req_merge(cur, bytes_piece(2, v) + rest, ctx) == rpb_del_req_merge((RpbDelReqView { key: v, ..cur }), rest, ctx),
{
    let f = bytes_field(2, v);
    let s = bytes_piece(2, v) + rest;
    lemma_field_roundtrip(f, rest, ctx);
    lemma_field_parse_len(s, ctx);
    assert(s.skip(field_bytes(f).len() as int) =~= rest);
    assert(rpb_del_req_apply(cur, f, ctx) == Some(RpbDelReqView { key: v, ..cur }));
}

proof fn lemma_rpb_del_req_field_rw(cur: RpbDelReqView, v: Option<u32>, rest: Seq<u8>, ctx: nat)
    requires
        cur.rw == rpb_del_req_empty().rw,
        (opt_varint_piece(3, opt_u32_code(v)) + rest).len() < 0x1_0000_0000_0000_0000,
        ctx >= 0,
    ensures
        rpb_del_req_merge(cur, opt_varint_piece(3, opt_u32_code(v)) + rest, ctx) == rpb_del_req_merge((RpbDelReqView { rw: v, ..cur }), rest, ctx),
{
    if v is Some {
        let f = varint_field(3, v->0 as u64);
        let s = opt_varint_piece(3, opt_u32_code(v)) + rest;
        lemma_field_roundtrip(f, rest, ctx);
        lemma_field_parse_len(s, ctx);
        assert(s.skip(field_bytes(f).len() as int) =~= rest);
        assert(rpb_del_req_apply(cur, f, ctx) == Some(RpbDelReqView { rw: v, ..cur }));
    } else {
        assert(opt_varint_piece(3, opt_u32_code(v)) + rest =~= rest);
        assert((RpbDelReqView { rw: v, ..cur }) == cur);
    }
}

proof fn lemma_rpb_del_req_field_vclock(cur: RpbDelReqView, v: Option<Seq<u8>>, rest: Seq<u8>, ctx: nat)
    requires
        cur.vclock == rpb_del_req_empty().vclock,
        (opt_bytes_piece(4, v) + rest).len() < 0x1_0000_0000_0000_0000,
        ctx >= 0,
    ensures
        rpb_del_req_merge(cur, opt_bytes_piece(4, v) + rest, ctx) == rpb_del_req_merge((RpbDelReqView { vclock: v, ..cur }), rest, ctx),
{
    if v is Some {
        let f = bytes_field(4, v->0);
        let s = opt_bytes_piece(4, v) + rest;
        lemma_field_roundtrip(f, rest, ctx);
        lemma_field_parse_len(s, ctx);
        assert(s.skip(field_bytes(f).len() as int) =~= rest);
        assert(rpb_del_req_apply(cur, f, ctx) == Some(RpbDelReqView { vclock: v, ..cur }));
    } else {
        assert(opt_bytes_piece(4, v) + rest =~= rest);
        assert((RpbDelReqView { vclock: v, ..cur }) == cur);
    }
}

proof fn lemma_rpb_del_req_field_r(cur: RpbDelReqView, v: Option<u32>, rest: Seq<u8>, ctx: nat)
    requires
        cur.r == rpb_del_req_empty().r,
        (opt_varint_piece(5, opt_u32_code(v)) + rest).len() < 0x1_0000_0000_0000_0000,
        ctx >= 0,
    ensures
        rpb_del_req_merge(cur, opt_varint_piece(5, opt_u32_code(v)) + rest, ctx) == rpb_del_req_merge((RpbDelReqView { r: v, ..cur }), rest, ctx),
{
    if v is Some {
        let f = varint_field(5, v->0 as u64);
        let s = opt_varint_piece(5, opt_u32_code(v)) + rest;
        lemma_field_roundtrip(f, rest, ctx);
        lemma_field_parse_len(s, ctx);
        assert(s.skip(field_bytes(f).len() as int) =~= rest);
        assert(rpb_del_req_apply(cur, f, ctx) == Some(RpbDelReqView { r: v, ..cur }));
    } else {
        assert(opt_varint_piece(5, opt_u32_code(v)) + rest =~= rest);
        assert((RpbDelReqView { r: v, ..cur }) == cur);
    }
}

proof fn lemma_rpb_del_req_field_w(cur: RpbDelReqView, v: Option<u32>, rest: Seq<u8>, ctx: nat)
    requires
        cur.w == rpb_del_req_empty().w,
        (opt_varint_piece(6, opt_u32_code(v)) + rest).len() < 0x1_0000_0000_0000_0000,
        ctx >= 0,
    ensures
        rpb_del_req_merge(cur, opt_varint_piece(6, opt_u32_code(v)) + rest, ctx) == rpb_del_req_merge((RpbDelReqView { w: v, ..cur }), rest, ctx),
{
    if v is Some {
        let f = varint_field(6, v->0 as u64);
        let s = opt_varint_piece(6, opt_u32_code(v)) + rest;
        lemma_field_roundtrip(f, rest, ctx);
        lemma_field_parse_len(s, ctx);
        assert(s.skip(field_bytes(f).len() as int) =~= rest);
        assert(rpb_del_req_apply(cur, f, ctx) == Some(RpbDelReqView { w: v, ..cur }));
    } else {
        assert(opt_varint_piece(6, opt_u32_code(v)) + rest =~= rest);
        assert((RpbDelReqView { w: v, ..cur }) == cur);
    }
}

proof fn lemma_rpb_del_req_field_pr(cur: RpbDelReqView, v: Option<u32>, rest: Seq<u8>, ctx: nat)
    requires
        cur.pr == rpb_del_req_empty().pr,
        (opt_varint_piece(7, opt_u32_code(v)) + rest).len() < 0x1_0000_0000_0000_0000,
        ctx >= 0,
    ensures
        rpb_del_req_merge(cur, opt_varint_piece(7, opt_u32_code(v)) + rest, ctx) == rpb_del_req_merge((RpbDelReqView { pr: v, ..cur }), rest, ctx),
{
    if v is Some {
        let f = varint_field(7, v->0 as u64);
        let s = opt_varint_piece(7, opt_u32_code(v)) + rest;
        lemma_field_roundtrip(f, rest, ctx);
        lemma_field_parse_len(s, ctx);
        assert(s.skip(field_bytes(f).len() as int) =~= rest);
        assert(rpb_del_req_apply(cur, f, ctx) == Some(RpbDelReqView { pr: v, ..cur }));
    } else {
        assert(opt_varint_piece(7, opt_u32_code(v)) + rest =~= rest);
        assert((RpbDelReqView { pr: v, ..cur }) == cur);
    }
}

proof fn lemma_rpb_del_req_field_pw(cur: RpbDelReqView, v: Option<u32>, rest: Seq<u8>, ctx: nat)
    requires
        cur.pw == rpb_del_req_empty().pw,
        (opt_varint_piece(8, opt_u32_code(v)) + rest).len() < 0x1_0000_0000_0000_0000,
        ctx >= 0,
    ensures
        rpb_del_req_merge(cur, opt_varint_piece(8, opt_u32_code(v)) + rest, ctx) == rpb_del_req_merge((RpbDelReqView { pw: v, ..cur }), rest, ctx),
{
    if v is Some {
        let f = varint_field(8, v->0 as u64);
        let s = opt_varint_piece(8, opt_u32_code(v)) + rest;
        lemma_field_roundtrip(f, rest, ctx);
        lemma_field_parse_len(s, ctx);
        assert(s.skip(field_bytes(f).len() as int) =~= rest);
        assert(rpb_del_req_apply(cur, f, ctx) == Some(RpbDelReqView { pw: v, ..cur }));
    } else {
        assert(opt_varint_piece(8, opt_u32_code(v)) + rest =~= rest);
        assert((RpbDelReqView { pw: v, ..cur }) == cur);
    }
}

proof fn lemma_rpb_del_req_field_dw(cur: RpbDelReqView, v: Option<u32>, rest: Seq<u8>, ctx: nat)
    requires
        cur.dw == rpb_del_req_empty().dw,
        (opt_varint_piece(9, opt_u32_code(v)) + rest).len() < 0x1_0000_0000_0000_0000,
        ctx >= 0,
    ensures
        rpb_del_req_merge(cur, opt_varint_piece(9, opt_u32_code(v)) + rest, ctx) == rpb_del_req_merge((RpbDelReqView { dw: v, ..cur }), rest, ctx),
{
    if v is Some {
        let f = varint_field(9, v->0 as u64);
        let s = opt_varint_piece(9, opt_u32_code(v)) + rest;
        lemma_field_roundtrip(f, rest, ctx);
        lemma_field_parse_len(s, ctx);
        assert(s.skip(field_bytes(f).len() as int) =~= rest);
        assert(rpb_del_req_apply(cur, f, ctx) == Some(RpbDelReqView { dw: v, ..cur }));
    } else {
        assert(opt_varint_piece(9, opt_u32_code(v)) + rest =~= rest);
        assert((RpbDelReqView { dw: v, ..cur }) == cur);
    }
}

proof fn lemma_rpb_del_req_field_timeout(cur: RpbDelReqView, v: Option<u32>, rest: Seq<u8>, ctx: nat)
    requires
        cur.timeout == rpb_del_req_empty().timeout,
        (opt_varint_piece(10, opt_u32_code(v)) + rest).len() < 0x1_0000_0000_0000_0000,
        ctx >= 0,
    ensures
        rpb_del_req_merge(cur, opt_varint_piece(10, opt_u32_code(v)) + rest, ctx) == rpb_del_req_merge((RpbDelReqView { timeout: v, ..cur }), rest, ctx),
{
    if v is Some {
        let f = varint_field(10, v->0 as u64);
        let s = opt_varint_piece(10, opt_u32_code(v)) + rest;
        lemma_field_roundtrip(f, rest, ctx);
        lemma_field_parse_len(s, ctx);
        assert(s.skip(field_bytes(f).len() as int) =~= rest);
        assert(rpb_del_req_apply(cur, f, ctx) == Some(RpbDelReqView { timeout: v, ..cur }));
    } else {
        assert(opt_varint_piece(10, opt_u32_code(v)) + rest =~= rest);
        assert((RpbDelReqView { timeout: v, ..cur }) == cur);
    }
}

proof fn lemma_rpb_del_req_field_sloppy_quorum(cur: RpbDelReqView, v: Option<bool>, rest: Seq<u8>, ctx: nat)
    requires
        cur.sloppy_quorum == rpb_del_req_empty().sloppy_quorum,
        (opt_varint_piece(11, opt_bool_code(v)) + rest).len() < 0x1_0000_0000_0000_0000,
        ctx >= 0,
    ensures
        rpb_del_req_merge(cur, opt_varint_piece(11, opt_bool_code(v)) + rest, ctx) == rpb_del_req_merge((RpbDelReqView { sloppy_quorum: v, ..cur }), rest, ctx),
{
    if v is Some {
        let f = varint_field(11, bool_code(v->0));
        let s = opt_varint_piece(11, opt_bool_code(v)) + rest;
        lemma_field_roundtrip(f, rest, ctx);
        lemma_field_parse_len(s, ctx);
        assert(s.skip(field_bytes(f).len() as int) =~= rest);
        assert(rpb_del_req_apply(cur, f, ctx) == Some(RpbDelReqView { sloppy_quorum: v, ..cur }));
    } else {
        assert(opt_varint_piece(11, opt_bool_code(v)) + rest =~= rest);
        assert((RpbDelReqView { sloppy_quorum: v, ..cur }) == cur);
    }
}

proof fn lemma_rpb_del_req_field_n_val(cur: RpbDelReqView, v: Option<u32>, rest: Seq<u8>, ctx: nat)
    requires
        cur.n_val == rpb_del_req_empty().n_val,
        (opt_varint_piece(12, opt_u32_code(v)) + rest).len() < 0x1_0000_0000_0000_0000,
        ctx >= 0,
    ensures
        rpb_del_req_merge(cur, opt_varint_piece(12, opt_u32_code(v)) + rest, ctx) == rpb_del_req_merge((RpbDelReqView { n_val: v, ..cur }), rest, ctx),
{
    if v is Some {
        let f = varint_field(12, v->0 as u64);
        let s = opt_varint_piece(12, opt_u32_code(v)) + rest;
        lemma_field_roundtrip(f, rest, ctx);
        lemma_field_parse_len(s, ctx);
        assert(s.skip(field_bytes(f).len() as int) =~= rest);
        assert(rpb_del_req_apply(cur, f, ctx) == Some(RpbDelReqView { n_val: v, ..cur }));
    } else {
        assert(opt_varint_piece(12, opt_u32_code(v)) + rest =~= rest);
        assert((RpbDelReqView { n_val: v, ..cur }) == cur);
    }
}

proof fn lemma_rpb_del_req_field_bucket_type(cur: RpbDelReqView, v: Option<Seq<u8>>, rest: Seq<u8>, ctx: nat)
    requires
        cur.bucket_type == rpb_del_req_empty().bucket_type,
        (opt_bytes_piece(13, v) + rest).len() < 0x1_0000_0000_0000_0000,
        ctx >= 0,
    ensures
        rpb_del_req_merge(cur, opt_bytes_piece(13, v) + rest, ctx) == rpb_del_req_merge((RpbDelReqView { bucket_type: v, ..cur }), rest, ctx),
{
    if v is Some {
        let f = bytes_field(13, v->0);
        let s = opt_bytes_piece(13, v) + rest;
        lemma_field_roundtrip(f, rest, ctx);
        lemma_field_parse_len(s, ctx);
        assert(s.skip(field_bytes(f).len() as int) =~= rest);
        assert(rpb_del_req_apply(cur, f, ctx) == Some(RpbDelReqView { bucket_type: v, ..cur }));
    } else {
        assert(opt_bytes_piece(13, v) + rest =~= rest);
        assert((RpbDelReqView { bucket_type: v, ..cur }) == cur);
    }
}

/// A `RpbDelReq` written to bytes merges back into an empty one as itself,
/// with an allowance of at least 0.
#[verifier::rlimit(50)]
pub proof fn lemma_rpb_del_req_reads_back(m: RpbDelReqView, ctx: nat)
    requires
        rpb_del_req_bytes(m).len() < 0x1_0000_0000_0000_0000,
        ctx >= 0,
    ensures
        rpb_del_req_merge(rpb_del_req_empty(), rpb_del_req_bytes(m), ctx) == Some(m),
{
    let p0 = bytes_piece(1, m.bucket);
    let p1 = bytes_piece(2, m.key);
    let p2 = opt_varint_piece(3, opt_u32_code(m.rw));
    let p3 = opt_bytes_piece(4, m.vclock);
    let p4 = opt_varint_piece(5, opt_u32_code(m.r));
    let p5 = opt_varint_piece(6, opt_u32_code(m.w));
    let p6 = opt_varint_piece(7, opt_u32_code(m.pr));
    let p7 = opt_varint_piece(8, opt_u32_code(m.pw));
    let p8 = opt_varint_piece(9, opt_u32_code(m.dw));
    let p9 = opt_varint_piece(10, opt_u32_code(m.timeout));
    let p10 = opt_varint_piece(11, opt_bool_code(m.sloppy_quorum));
    let p11 = opt_varint_piece(12, opt_u32_code(m.n_val));
    let p12 = opt_bytes_piece(13, m.bucket_type);
    let s13 = Seq::<u8>::empty();
    let s12 = p12 + s13;
    let s11 = p11 + s12;
    let s10 = p10 + s11;
    let s9 = p9 + s10;
    let s8 = p8 + s9;
    let s7 = p7 + s8;
    let s6 = p6 + s7;
    let s5 = p5 + s6;
    let s4 = p4 + s5;
    let s3 = p3 + s4;
    let s2 = p2 + s3;
    let s1 = p1 + s2;
    let s0 = p0 + s1;
    assert(rpb_del_req_bytes(m) == s0) by {
        lemma_concat_assoc(p0, p1, s2);
        lemma_concat_assoc(p0 + p1, p2, s3);
        lemma_concat_assoc(p0 + p1 + p2, p3, s4);
        lemma_concat_assoc(p0 + p1 + p2 + p3, p4, s5);
        lemma_concat_assoc(p0 + p1 + p2 + p3 + p4, p5, s6);
        lemma_concat_assoc(p0 + p1 + p2 + p3 + p4 + p5, p6, s7);
        lemma_concat_assoc(p0 + p1 + p2 + p3 + p4 + p5 + p6, p7, s8);
        lemma_concat_assoc(p0 + p1 + p2 + p3 + p4 + p5 + p6 + p7, p8, s9);
        lemma_concat_assoc(p0 + p1 + p2 + p3 + p4 + p5 + p6 + p7 + p8, p9, s10);
        lemma_concat_assoc(p0 + p1 + p2 + p3 + p4 + p5 + p6 + p7 + p8 + p9, p10, s11);
        lemma_concat_assoc(p0 + p1 + p2 + p3 + p4 + p5 + p6 + p7 + p8 + p9 + p10, p11, s12);
        lemma_concat_assoc(p0 + p1 + p2 + p3 + p4 + p5 + p6 + p7 + p8 + p9 + p10 + p11, p12, s13);
        assert(p0 + p1 + p2 + p3 + p4 + p5 + p6 + p7 + p8 + p9 + p10 + p11 + p12 + s13 =~= p0 + p1 + p2 + p3 + p4 + p5 + p6 + p7 + p8 + p9 + p10 + p11 + p12);
    }
    let m0 = rpb_del_req_empty();
    let m1 = RpbDelReqView { bucket: m.bucket, ..m0 };
    let m2 = RpbDelReqView { key: m.key, ..m1 };
    let m3 = RpbDelReqView { rw: m.rw, ..m2 };
    let m4 = RpbDelReqView { vclock: m.vclock, ..m3 };
    let m5 = RpbDelReqView { r: m.r, ..m4 };
    let m6 = RpbDelReqView { w: m.w, ..m5 };
    let m7 = RpbDelReqView { pr: m.pr, ..m6 };
    let m8 = RpbDelReqView { pw: m.pw, ..m7 };
    let m9 = RpbDelReqView { dw: m.dw, ..m8 };
    let m10 = RpbDelReqView { timeout: m.timeout, ..m9 };
    let m11 = RpbDelReqView { sloppy_quorum: m.sloppy_quorum, ..m10 };
    let m12 = RpbDelReqView { n_val: m.n_val, ..m11 };
    let m13 = RpbDelReqView { bucket_type: m.bucket_type, ..m12 };
    lemma_rpb_del_req_field_bucket(m0, m.bucket, s1, ctx);
    lemma_rpb_del_req_field_key(m1, m.key, s2, ctx);
    lemma_rpb_del_req_field_rw(m2, m.rw, s3, ctx);
    lemma_rpb_del_req_field_vclock(m3, m.vclock, s4, ctx);
    lemma_rpb_del_req_field_r(m4, m.r, s5, ctx);
    lemma_rpb_del_req_field_w(m5, m.w, s6, ctx);
    lemma_rpb_del_req_field_pr(m6, m.pr, s7, ctx);
    lemma_rpb_del_req_field_pw(m7, m.pw, s8, ctx);
    lemma_rpb_del_req_field_dw(m8, m.dw, s9, ctx);
    lemma_rpb_del_req_field_timeout(m9, m.timeout, s10, ctx);
    lemma_rpb_del_req_field_sloppy_quorum(m10, m.sloppy_quorum, s11, ctx);
    lemma_rpb_del_req_field_n_val(m11, m.n_val, s12, ctx);
    lemma_rpb_del_req_field_bucket_type(m12, m.bucket_type, s13, ctx);
    assert(m13 == m);
}

/// A `RpbDelReq` written to bytes reads back as itself.
pub proof fn lemma_rpb_del_req_roundtrip(m: RpbDelReqView)
    requires
        rpb_del_req_bytes(m).len() < 0x1_0000_0000_0000_0000,
    ensures
        rpb_del_req_decode(rpb_del_req_bytes(m)) == Some(m),
{
    lemma_rpb_del_req_reads_back(m, 100);
}

proof fn lemma_rpb_list_buckets_req_field_timeout(cur: RpbListBucketsReqView, v: Option<u32>, rest: Seq<u8>, ctx: nat)
    requires
        cur.timeout == rpb_list_buckets_req_empty().timeout,
        (opt_varint_piece(1, opt_u32_code(v)) + rest).len() < 0x1_0000_0000_0000_0000,
        ctx >= 0,
    ensures
        rpb_list_buckets_req_merge(cur, opt_varint_piece(1, opt_u32_code(v)) + rest, ctx) == rpb_list_buckets_req_merge((RpbListBucketsReqView { timeout: v, ..cur }), rest, ctx),
{
    if v is Some {
        let f = varint_field(1, v->0 as u64);
        let s = opt_varint_piece(1, opt_u32_code(v)) + rest;
        lemma_field_roundtrip(f, rest, ctx);
        lemma_field_parse_len(s, ctx);
        assert(s.skip(field_bytes(f).len() as int) =~= rest);
        assert(rpb_list_buckets_req_apply(cur, f, ctx) == Some(RpbListBucketsReqView { timeout: v, ..cur }));
    } else {
        assert(opt_varint_piece(1, opt_u32_code(v)) + rest =~= rest);
        assert((RpbListBucketsReqView { timeout: v, ..cur }) == cur);
    }
}

proof fn lemma_rpb_list_buckets_req_field_stream(cur: RpbListBucketsReqView, v: Option<bool>, rest: Seq<u8>, ctx: nat)
    requires
        cur.stream == rpb_list_buckets_req_empty().stream,
        (opt_varint_piece(2, opt_bool_code(v)) + rest).len() < 0x1_0000_0000_0000_0000,
        ctx >= 0,
    ensures
        rpb_list_buckets_req_merge(cur, opt_varint_piece(2, opt_bool_code(v)) + rest, ctx) == rpb_list_buckets_req_merge((RpbListBucketsReqView { stream: v, ..cur }), rest, ctx),
{
    if v is Some {
        let f = varint_field(2, bool_code(v->0));
        let s = opt_varint_piece(2, opt_bool_code(v)) + rest;
        lemma_field_roundtrip(f, rest, ctx);
        lemma_field_parse_len(s, ctx);
        assert(s.skip(field_bytes(f).len() as int) =~= rest);
        assert(rpb_list_buckets_req_apply(cur, f, ctx) == Some(RpbListBucketsReqView { stream: v, ..cur }));
    } else {
        assert(opt_varint_piece(2, opt_bool_code(v)) + rest =~= rest);
        assert((RpbListBucketsReqView { stream: v, ..cur }) == cur);
    }
}

proof fn lemma_rpb_list_buckets_req_field_bucket_type(cur: RpbListBucketsReqView, v: Option<Seq<u8>>, rest: Seq<u8>, ctx: nat)
    requires
        cur.bucket_type == rpb_list_buckets_req_empty().bucket_type,
        (opt_bytes_piece(3, v) + rest).len() < 0x1_0000_0000_0000_0000,
        ctx >= 0,
    ensures
        rpb_list_buckets_req_merge(cur, opt_bytes_piece(3, v) + rest, ctx) == rpb_list_buckets_req_merge((RpbListBucketsReqView { bucket_type: v, ..cur }), rest, ctx),
{
    if v is Some {
        let f = bytes_field(3, v->0);
        let s = opt_bytes_piece(3, v) + rest;
        lemma_field_roundtrip(f, rest, ctx);
        lemma_field_parse_len(s, ctx);
        assert(s.skip(field_bytes(f).len() as int) =~= rest);
        assert(rpb_list_buckets_req_apply(cur, f, ctx) == Some(RpbListBucketsReqView { bucket_type: v, ..cur }));
    } else {
        assert(opt_bytes_piece(3, v) + rest =~= rest);
        assert((RpbListBucketsReqView { bucket_type: v, ..cur }) == cur);
    }
}

/// A `RpbListBucketsReq` written to bytes merges back into an empty one as itself,
/// with an allowance of at least 0.
#[verifier::rlimit(50)]
pub proof fn lemma_rpb_list_buckets_req_reads_back(m: RpbListBucketsReqView, ctx: nat)
    requires
        rpb_list_buckets_req_bytes(m).len() < 0x1_0000_0000_0000_0000,
        ctx >= 0,
    ensures
        rpb_list_buckets_req_merge(rpb_list_buckets_req_empty(), rpb_list_buckets_req_bytes(m), ctx) == Some(m),
{
    let p0 = opt_varint_piece(1, opt_u32_code(m.timeout));
    let p1 = opt_varint_piece(2, opt_bool_code(m.stream));
    let p2 = opt_bytes_piece(3, m.bucket_type);
    let s3 = Seq::<u8>::empty();
    let s2 = p2 + s3;
    let s1 = p1 + s2;
    let s0 = p0 + s1;
    assert(rpb_list_buckets_req_bytes(m) == s0) by {
        lemma_concat_assoc(p0, p1, s2);
        lemma_concat_assoc(p0 + p1, p2, s3);
        assert(p0 + p1 + p2 + s3 =~= p0 + p1 + p2);
    }
    let m0 = rpb_list_buckets_req_empty();
    let m1 = RpbListBucketsReqView { timeout: m.timeout, ..m0 };
    let m2 = RpbListBucketsReqView { stream: m.stream, ..m1 };
    let m3 = RpbListBucketsReqView { bucket_type: m.bucket_type, ..m2 };
    lemma_rpb_list_buckets_req_field_timeout(m0, m.timeout, s1, ctx);
    lemma_rpb_list_buckets_req_field_stream(m1, m.stream, s2, ctx);
    lemma_rpb_list_buckets_req_field_bucket_type(m2, m.bucket_type, s3, ctx);
    assert(m3 == m);
}

/// A `RpbListBucketsReq` written to bytes reads back as itself.
pub proof fn lemma_rpb_list_buckets_req_roundtrip(m: RpbListBucketsReqView)
    requires
        rpb_list_buckets_req_bytes(m).len() < 0x1_0000_0000_0000_0000,
    ensures
        rpb_list_buckets_req_decode(rpb_list_buckets_req_bytes(m)) == Some(m),
{
    lemma_rpb_list_buckets_req_reads_back(m, 100);
}

proof fn lemma_rpb_list_buckets_resp_rep_buckets(m0: RpbListBucketsRespView, s: Seq<Seq<u8>>, rest: Seq<u8>, ctx: nat)
    requires
        (rep_bytes_piece(1, s) + rest).len() < 0x1_0000_0000_0000_0000,
        ctx >= 0,
    ensures
        rpb_list_buckets_resp_merge(m0, rep_bytes_piece(1, s) + rest, ctx) == rpb_list_buckets_resp_merge((RpbListBucketsRespView { buckets: m0.buckets + s, ..m0 }), rest, ctx),
    decreases s.len(),
{
    let bs = s;
    if s.len() == 0 {
        assert(rep_bytes_piece(1, bs) + rest =~= rest);
        assert(m0.buckets + s =~= m0.buckets);
        assert((RpbListBucketsRespView { buckets: m0.buckets + s, ..m0 }) == m0);
    } else {
        let s2 = s.drop_last();
        let x = s.last();
        let f = bytes_field(1, x);
        let bs2 = s2;
        assert(bs.drop_last() =~= bs2);
        assert(rep_bytes_piece(1, bs) + rest =~= rep_bytes_piece(1, bs2) + (field_bytes(f) + rest));
        lemma_rpb_list_buckets_resp_rep_buckets(m0, s2, field_bytes(f) + rest, ctx);
        let m1 = RpbListBucketsRespView { buckets: m0.buckets + s2, ..m0 };
        let tail = field_bytes(f) + rest;
        lemma_field_roundtrip(f, rest, ctx);
        lemma_field_parse_len(tail, ctx);
        assert(tail.skip(field_bytes(f).len() as int) =~= rest);
        assert(m1.buckets.push(x) =~= m0.buckets + s);
        assert(rpb_list_buckets_resp_apply(m1, f, ctx) == Some(RpbListBucketsRespView { buckets: m0.buckets + s, ..m0 }));
    }
}

proof fn lemma_rpb_list_buckets_resp_field_done(cur: RpbListBucketsRespView, v: Option<bool>, rest: Seq<u8>, ctx: nat)
    requires
        cur.done == rpb_list_buckets_resp_empty().done,
        (opt_varint_piece(2, opt_bool_code(v)) + rest).len() < 0x1_0000_0000_0000_0000,
        ctx >= 0,
    ensures
        rpb_list_buckets_resp_merge(cur, opt_varint_piece(2, opt_bool_code(v)) + rest, ctx) == rpb_list_buckets_resp_merge((RpbListBucketsRespView { done: v, ..cur }), rest, ctx),
{
    if v is Some {
        let f = varint_field(2, bool_code(v->0));
        let s = opt_varint_piece(2, opt_bool_code(v)) + rest;
        lemma_field_roundtrip(f, rest, ctx);
        lemma_field_parse_len(s, ctx);
        assert(s.skip(field_bytes(f).len() as int) =~= rest);
        assert(rpb_list_buckets_resp_apply(cur, f, ctx) == Some(RpbListBucketsRespView { done: v, ..cur }));
    } else {
        assert(opt_varint_piece(2, opt_bool_code(v)) + rest =~= rest);
        assert((RpbListBucketsRespView { done: v, ..cur }) == cur);
    }
}

/// A `RpbListBucketsResp` written to bytes merges back into an empty one as itself,
/// with an allowance of at least 0.
#[verifier::rlimit(50)]
pub proof fn lemma_rpb_list_buckets_resp_reads_back(m: RpbListBucketsRespView, ctx: nat)
    requires
        rpb_list_buckets_resp_bytes(m).len() < 0x1_0000_0000_0000_0000,
        ctx >= 0,
    ensures
        rpb_list_buckets_resp_merge(rpb_list_buckets_resp_empty(), rpb_list_buckets_resp_bytes(m), ctx) == Some(m),
{
    let p0 = rep_bytes_piece(1, m.buckets);
    let p1 = opt_varint_piece(2, opt_bool_code(m.done));
    let s2 = Seq::<u8>::empty();
    let s1 = p1 + s2;
    let s0 = p0 + s1;
    assert(rpb_list_buckets_resp_bytes(m) == s0) by {
        lemma_concat_assoc(p0, p1, s2);
        assert(p0 + p1 + s2 =~= p0 + p1);
    }
    let m0 = rpb_list_buckets_resp_empty();
    let m1 = RpbListBucketsRespView { buckets: m.buckets, ..m0 };
    let m2 = RpbListBucketsRespView { done: m.done, ..m1 };
    lemma_rpb_list_buckets_resp_rep_buckets(m0, m.buckets, s1, ctx);
    assert(m0.buckets + m.buckets =~= m.buckets);
    lemma_rpb_list_buckets_resp_field_done(m1, m.done, s2, ctx);
    assert(m2 == m);
}

/// A `RpbListBucketsResp` written to bytes reads back as itself.
pub proof fn lemma_rpb_list_buckets_resp_roundtrip(m: RpbListBucketsRespView)
    requires
        rpb_list_buckets_resp_bytes(m).len() < 0x1_0000_0000_0000_0000,
    ensures
        rpb_list_buckets_resp_decode(rpb_list_buckets_resp_bytes(m)) == Some(m),
{
    lemma_rpb_list_buckets_resp_reads_back(m, 100);
}

proof fn lemma_rpb_list_keys_req_field_bucket(cur: RpbListKeysReqView, v: Seq<u8>, rest: Seq<u8>, ctx: nat)
    requires
        cur.bucket == rpb_list_keys_req_empty().bucket,
        (bytes_piece(1, v) + rest).len() < 0x1_0000_0000_0000_0000,
        ctx >= 0,
    ensures
        rpb_list_keys_req_merge(cur, bytes_piece(1, v) + rest, ctx) == rpb_list_keys_req_merge((RpbListKeysReqView { bucket: v, ..cur }), rest, ctx),
{
    let f = bytes_field(1, v);
    let s = bytes_piece(1, v) + rest;
    lemma_field_roundtrip(f, rest, ctx);
    lemma_field_parse_len(s, ctx);
    assert(s.skip(field_bytes(f).len() as int) =~= rest);
    assert(rpb_list_keys_req_apply(cur, f, ctx) == Some(RpbListKeysReqView { bucket: v, ..cur }));
}

proof fn lemma_rpb_list_keys_req_field_timeout(cur: RpbListKeysReqView, v: Option<u32>, rest: Seq<u8>, ctx: nat)
    requires
        cur.timeout == rpb_list_keys_req_empty().timeout,
        (opt_varint_piece(2, opt_u32_code(v)) + rest).len() < 0x1_0000_0000_0000_0000,
        ctx >= 0,
    ensures
        rpb_list_keys_req_merge(cur, opt_varint_piece(2, opt_u32_code(v)) + rest, ctx) == rpb_list_keys_req_merge((RpbListKeysReqView { timeout: v, ..cur }), rest, ctx),
{
    if v is Some {
        let f = varint_field(2, v->0 as u64);
        let s = opt_varint_piece(2, opt_u32_code(v)) + rest;
        lemma_field_roundtrip(f, rest, ctx);
        lemma_field_parse_len(s, ctx);
        assert(s.skip(field_bytes(f).len() as int) =~= rest);
        assert(rpb_list_keys_req_apply(cur, f, ctx) == Some(RpbListKeysReqView { timeout: v, ..cur }));
    } else {
        assert(opt_varint_piece(2, opt_u32_code(v)) + rest =~= rest);
        assert((RpbListKeysReqView { timeout: v, ..cur }) == cur);
    }
}

proof fn lemma_rpb_list_keys_req_field_bucket_type(cur: RpbListKeysReqView, v: Option<Seq<u8>>, rest: Seq<u8>, ctx: nat)
    requires
        cur.bucket_type == rpb_list_keys_req_empty().bucket_type,
        (opt_bytes_piece(3, v) + rest).len() < 0x1_0000_0000_0000_0000,
        ctx >= 0,
    ensures
        rpb_list_keys_req_merge(cur, opt_bytes_piece(3, v) + rest, ctx) == rpb_list_keys_req_merge((RpbListKeysReqView { bucket_type: v, ..cur }), rest, ctx),
{
    if v is Some {
        let f = bytes_field(3, v->0);
        let s = opt_bytes_piece(3, v) + rest;
        lemma_field_roundtrip(f, rest, ctx);
        lemma_field_parse_len(s, ctx);
        assert(s.skip(field_bytes(f).len() as int) =~= rest);
        assert(rpb_list_keys_req_apply(cur, f, ctx) == Some(RpbListKeysReqView { bucket_type: v, ..cur }));
    } else {
        assert(opt_bytes_piece(3, v) + rest =~= rest);
        assert((RpbListKeysReqView { bucket_type: v, ..cur }) == cur);
    }
}

/// A `RpbListKeysReq` written to bytes merges back into an empty one as itself,
/// with an allowance of at least 0.
#[verifier::rlimit(50)]
pub proof fn lemma_rpb_list_keys_req_reads_back(m: RpbListKeysReqView, ctx: nat)
    requires
        rpb_list_keys_req_bytes(m).len() < 0x1_0000_0000_0000_0000,
        ctx >= 0,
    ensures
        rpb_list_keys_req_merge(rpb_list_keys_req_empty(), rpb_list_keys_req_bytes(m), ctx) == Some(m),
{
    let p0 = bytes_piece(1, m.bucket);
    let p1 = opt_varint_piece(2, opt_u32_code(m.timeout));
    let p2 = opt_bytes_piece(3, m.bucket_type);
    let s3 = Seq::<u8>::empty();
    let s2 = p2 + s3;
    let s1 = p1 + s2;
    let s0 = p0 + s1;
    assert(rpb_list_keys_req_bytes(m) == s0) by {
        lemma_concat_assoc(p0, p1, s2);
        lemma_concat_assoc(p0 + p1, p2, s3);
        assert(p0 + p1 + p2 + s3 =~= p0 + p1 + p2);
    }
    let m0 = rpb_list_keys_req_empty();
    let m1 = RpbListKeysReqView { bucket: m.bucket, ..m0 };
    let m2 = RpbListKeysReqView { timeout: m.timeout, ..m1 };
    let m3 = RpbListKeysReqView { bucket_type: m.bucket_type, ..m2 };
    lemma_rpb_list_keys_req_field_bucket(m0, m.bucket, s1, ctx);
    lemma_rpb_list_keys_req_field_timeout(m1, m.timeout, s2, ctx);
    lemma_rpb_list_keys_req_field_bucket_type(m2, m.bucket_type, s3, ctx);
    assert(m3 == m);
}

/// A `RpbListKeysReq` written to bytes reads back as itself.
pub proof fn lemma_rpb_list_keys_req_roundtrip(m: RpbListKeysReqView)
    requires
        rpb_list_keys_req_bytes(m).len() < 0x1_0000_0000_0000_0000,
    ensures
        rpb_list_keys_req_decode(rpb_list_keys_req_bytes(m)) == Some(m),
{
    lemma_rpb_list_keys_req_reads_back(m, 100);
}

proof fn lemma_rpb_list_keys_resp_rep_keys(m0: RpbListKeysRespView, s: Seq<Seq<u8>>, rest: Seq<u8>, ctx: nat)
    requires
        (rep_bytes_piece(1, s) + rest).len() < 0x1_0000_0000_0000_0000,
        ctx >= 0,
    ensures
        rpb_list_keys_resp_merge(m0, rep_bytes_piece(1, s) + rest, ctx) == rpb_list_keys_resp_merge((RpbListKeysRespView { keys: m0.keys + s, ..m0 }), rest, ctx),
    decreases s.len(),
{
    let bs = s;
    if s.len() == 0 {
        assert(rep_bytes_piece(1, bs) + rest =~= rest);
        assert(m0.keys + s =~= m0.keys);
        assert((RpbListKeysRespView { keys: m0.keys + s, ..m0 }) == m0);
    } else {
        let s2 = s.drop_last();
        let x = s.last();
        let f = bytes_field(1, x);
        let bs2 = s2;
        assert(bs.drop_last() =~= bs2);
        assert(rep_bytes_piece(1, bs) + rest =~= rep_bytes_piece(1, bs2) + (field_bytes(f) + rest));
        lemma_rpb_list_keys_resp_rep_keys(m0, s2, field_bytes(f) + rest, ctx);
        let m1 = RpbListKeysRespView { keys: m0.keys + s2, ..m0 };
        let tail = field_bytes(f) + rest;
        lemma_field_roundtrip(f, rest, ctx);
        lemma_field_parse_len(tail, ctx);
        assert(tail.skip(field_bytes(f).len() as int) =~= rest);
        assert(m1.keys.push(x) =~= m0.keys + s);
        assert(rpb_list_keys_resp_apply(m1, f, ctx) == Some(RpbListKeysRespView { keys: m0.keys + s, ..m0 }));
    }
}

proof fn lemma_rpb_list_keys_resp_field_done(cur: RpbListKeysRespView, v: Option<bool>, rest: Seq<u8>, ctx: nat)
    requires
        cur.done == rpb_list_keys_resp_empty().done,
        (opt_varint_piece(2, opt_bool_code(v)) + rest).len() < 0x1_0000_0000_0000_0000,
        ctx >= 0,
    ensures
        rpb_list_keys_resp_merge(cur, opt_varint_piece(2, opt_bool_code(v)) + rest, ctx) == rpb_list_keys_resp_merge((RpbListKeysRespView { done: v, ..cur }), rest, ctx),
{
    if v is Some {
        let f = varint_field(2, bool_code(v->0));
        let s = opt_varint_piece(2, opt_bool_code(v)) + rest;
        lemma_field_roundtrip(f, rest, ctx);
        lemma_field_parse_len(s, ctx);
        assert(s.skip(field_bytes(f).len() as int) =~= rest);
        assert(rpb_list_keys_resp_apply(cur, f, ctx) == Some(RpbListKeysRespView { done: v, ..cur }));
    } else {
        assert(opt_varint_piece(2, opt_bool_code(v)) + rest =~= rest);
        assert((RpbListKeysRespView { done: v, ..cur }) == cur);
    }
}

/// A `RpbListKeysResp` written to bytes merges back into an empty one as itself,
/// with an allowance of at least 0.
#[verifier::rlimit(50)]
pub proof fn lemma_rpb_list_keys_resp_reads_back(m: RpbListKeysRespView, ctx: nat)
    requires
        rpb_list_keys_resp_bytes(m).len() < 0x1_0000_0000_0000_0000,
        ctx >= 0,
    ensures
        rpb_list_keys_resp_merge(rpb_list_keys_resp_empty(), rpb_list_keys_resp_bytes(m), ctx) == Some(m),
{
    let p0 = rep_bytes_piece(1, m.keys);
    let p1 = opt_varint_piece(2, opt_bool_code(m.done));
    let s2 = Seq::<u8>::empty();
    let s1 = p1 + s2;
    let s0 = p0 + s1;
    assert(rpb_list_keys_resp_bytes(m) == s0) by {
        lemma_concat_assoc(p0, p1, s2);
        assert(p0 + p1 + s2 =~= p0 + p1);
    }
    let m0 = rpb_list_keys_resp_empty();
    let m1 = RpbListKeysRespView { keys: m.keys, ..m0 };
    let m2 = RpbListKeysRespView { done: m.done, ..m1 };
    lemma_rpb_list_keys_resp_rep_keys(m0, m.keys, s1, ctx);
    assert(m0.keys + m.keys =~= m.keys);
    lemma_rpb_list_keys_resp_field_done(m1, m.done, s2, ctx);
    assert(m2 == m);
}

/// A `RpbListKeysResp` written to bytes reads back as itself.
pub proof fn lemma_rpb_list_keys_resp_roundtrip(m: RpbListKeysRespView)
    requires
        rpb_list_keys_resp_bytes(m).len() < 0x1_0000_0000_0000_0000,
    ensures
        rpb_list_keys_resp_decode(rpb_list_keys_resp_bytes(m)) == Some(m),
{
    lemma_rpb_list_keys_resp_reads_back(m, 100);
}

proof fn lemma_rpb_map_red_req_field_request(cur: RpbMapRedReqView, v: Seq<u8>, rest: Seq<u8>, ctx: nat)
    requires
        cur.request == rpb_map_red_req_empty().request,
        (bytes_piece(1, v) + rest).len() < 0x1_0000_0000_0000_0000,
        ctx >= 0,
    ensures
        rpb_map_red_req_merge(cur, bytes_piece(1, v) + rest, ctx) == rpb_map_red_req_merge((RpbMapRedReqView { request: v, ..cur }), rest, ctx),
{
    let f = bytes_field(1, v);
    let s = bytes_piece(1, v) + rest;
    lemma_field_roundtrip(f, rest, ctx);
    lemma_field_parse_len(s, ctx);
    assert(s.skip(field_bytes(f).len() as int) =~= rest);
    assert(rpb_map_red_req_apply(cur, f, ctx) == Some(RpbMapRedReqView { request: v, ..cur }));
}

proof fn lemma_rpb_map_red_req_field_content_type(cur: RpbMapRedReqView, v: Seq<u8>, rest: Seq<u8>, ctx: nat)
    requires
        cur.content_type == rpb_map_red_req_empty().content_type,
        (bytes_piece(2, v) + rest).len() < 0x1_0000_0000_0000_0000,
        ctx >= 0,
    ensures
        rpb_map_red_req_merge(cur, bytes_piece(2, v) + rest, ctx) == rpb_map_red_req_merge((RpbMapRedReqView { content_type: v, ..cur }), rest, ctx),
{
    let f = bytes_field(2, v);
    let s = bytes_piece(2, v) + rest;
    lemma_field_roundtrip(f, rest, ctx);
    lemma_field_parse_len(s, ctx);
    assert(s.skip(field_bytes(f).len() as int) =~= rest);
    assert(rpb_map_red_req_apply(cur, f, ctx) == Some(RpbMapRedReqView { content_type: v, ..cur }));
}

/// A `RpbMapRedReq` written to bytes merges back into an empty one as itself,
/// with an allowance of at least 0.
#[verifier::rlimit(50)]
pub proof fn lemma_rpb_map_red_req_reads_back(m: RpbMapRedReqView, ctx: nat)
    requires
        rpb_map_red_req_bytes(m).len() < 0x1_0000_0000_0000_0000,
        ctx >= 0,
    ensures
        rpb_map_red_req_merge(rpb_map_red_req_empty(), rpb_map_red_req_bytes(m), ctx) == Some(m),
{
    let p0 = bytes_piece(1, m.request);
    let p1 = bytes_piece(2, m.content_type);
    let s2 = Seq::<u8>::empty();
    let s1 = p1 + s2;
    let s0 = p0 + s1;
    assert(rpb_map_red_req_bytes(m) == s0) by {
        lemma_concat_assoc(p0, p1, s2);
        assert(p0 + p1 + s2 =~= p0 + p1);
    }
    let m0 = rpb_map_red_req_empty();
    let m1 = RpbMapRedReqView { request: m.request, ..m0 };
    let m2 = RpbMapRedReqView { content_type: m.content_type, ..m1 };
    lemma_rpb_map_red_req_field_request(m0, m.request, s1, ctx);
    lemma_rpb_map_red_req_field_content_type(m1, m.content_type, s2, ctx);
    assert(m2 == m);
}

/// A `RpbMapRedReq` written to bytes reads back as itself.
pub proof fn lemma_rpb_map_red_req_roundtrip(m: RpbMapRedReqView)
    requires
        rpb_map_red_req_bytes(m).len() < 0x1_0000_0000_0000_0000,
    ensures
        rpb_map_red_req_decode(rpb_map_red_req_bytes(m)) == Some(m),
{
    lemma_rpb_map_red_req_reads_back(m, 100);
}

proof fn lemma_rpb_map_red_resp_field_phase(cur: RpbMapRedRespView, v: Option<u32>, rest: Seq<u8>, ctx: nat)
    requires
        cur.phase == rpb_map_red_resp_empty().phase,
        (opt_varint_piece(1, opt_u32_code(v)) + rest).len() < 0x1_0000_0000_0000_0000,
        ctx >= 0,
    ensures
        rpb_map_red_resp_merge(cur, opt_varint_piece(1, opt_u32_code(v)) + rest, ctx) == rpb_map_red_resp_merge((RpbMapRedRespView { phase: v, ..cur }), rest, ctx),
{
    if v is Some {
        let f = varint_field(1, v->0 as u64);
        let s = opt_varint_piece(1, opt_u32_code(v)) + rest;
        lemma_field_roundtrip(f, rest, ctx);
        lemma_field_parse_len(s, ctx);
        assert(s.skip(field_bytes(f).len() as int) =~= rest);
        assert(rpb_map_red_resp_apply(cur, f, ctx) == Some(RpbMapRedRespView { phase: v, ..cur }));
    } else {
        assert(opt_varint_piece(1, opt_u32_code(v)) + rest =~= rest);
        assert((RpbMapRedRespView { phase: v, ..cur }) == cur);
    }
}

proof fn lemma_rpb_map_red_resp_field_response(cur: RpbMapRedRespView, v: Option<Seq<u8>>, rest: Seq<u8>, ctx: nat)
    requires
        cur.response == rpb_map_red_resp_empty().response,
        (opt_bytes_piece(2, v) + rest).len() < 0x1_0000_0000_0000_0000,
        ctx >= 0,
    ensures
        rpb_map_red_resp_merge(cur, opt_bytes_piece(2, v) + rest, ctx) == rpb_map_red_resp_merge((RpbMapRedRespView { response: v, ..cur }), rest, ctx),
{
    if v is Some {
        let f = bytes_field(2, v->0);
        let s = opt_bytes_piece(2, v) + rest;
        lemma_field_roundtrip(f, rest, ctx);
        lemma_field_parse_len(s, ctx);
        assert(s.skip(field_bytes(f).len() as int) =~= rest);
        assert(rpb_map_red_resp_apply(cur, f, ctx) == Some(RpbMapRedRespView { response: v, ..cur }));
    } else {
        assert(opt_bytes_piece(2, v) + rest =~= rest);
        assert((RpbMapRedRespView { response: v, ..cur }) == cur);
    }
}

proof fn lemma_rpb_map_red_resp_field_done(cur: RpbMapRedRespView, v: Option<bool>, rest: Seq<u8>, ctx: nat)
    requires
        cur.done == rpb_map_red_resp_empty().done,
        (opt_varint_piece(3, opt_bool_code(v)) + rest).len() < 0x1_0000_0000_0000_0000,
        ctx >= 0,
    ensures
        rpb_map_red_resp_merge(cur, opt_varint_piece(3, opt_bool_code(v)) + rest, ctx) == rpb_map_red_resp_merge((RpbMapRedRespView { done: v, ..cur }), rest, ctx),
{
    if v is Some {
        let f = varint_field(3, bool_code(v->0));
        let s = opt_varint_piece(3, opt_bool_code(v)) + rest;
        lemma_field_roundtrip(f, rest, ctx);
        lemma_field_parse_len(s, ctx);
        assert(s.skip(field_bytes(f).len() as int) =~= rest);
        assert(rpb_map_red_resp_apply(cur, f, ctx) == Some(RpbMapRedRespView { done: v, ..cur }));
    } else {
        assert(opt_varint_piece(3, opt_bool_code(v)) + rest =~= rest);
        assert((RpbMapRedRespView { done: v, ..cur }) == cur);
    }
}

/// A `RpbMapRedResp` written to bytes merges back into an empty one as itself,
/// with an allowance of at least 0.
#[verifier::rlimit(50)]
pub proof fn lemma_rpb_map_red_resp_reads_back(m: RpbMapRedRespView, ctx: nat)
    requires
        rpb_map_red_resp_bytes(m).len() < 0x1_0000_0000_0000_0000,
        ctx >= 0,
    ensures
        rpb_map_red_resp_merge(rpb_map_red_resp_empty(), rpb_map_red_resp_bytes(m), ctx) == Some(m),
{
    let p0 = opt_varint_piece(1, opt_u32_code(m.phase));
    let p1 = opt_bytes_piece(2, m.response);
    let p2 = opt_varint_piece(3, opt_bool_code(m.done));
    let s3 = Seq::<u8>::empty();
    let s2 = p2 + s3;
    let s1 = p1 + s2;
    let s0 = p0 + s1;
    assert(rpb_map_red_resp_bytes(m) == s0) by {
        lemma_concat_assoc(p0, p1, s2);
        lemma_concat_assoc(p0 + p1, p2, s3);
        assert(p0 + p1 + p2 + s3 =~= p0 + p1 + p2);
    }
    let m0 = rpb_map_red_resp_empty();
    let m1 = RpbMapRedRespView { phase: m.phase, ..m0 };
    let m2 = RpbMapRedRespView { response: m.response, ..m1 };
    let m3 = RpbMapRedRespView { done: m.done, ..m2 };
    lemma_rpb_map_red_resp_field_phase(m0, m.phase, s1, ctx);
    lemma_rpb_map_red_resp_field_response(m1, m.response, s2, ctx);
    lemma_rpb_map_red_resp_field_done(m2, m.done, s3, ctx);
    assert(m3 == m);
}

/// A `RpbMapRedResp` written to bytes reads back as itself.
pub proof fn lemma_rpb_map_red_resp_roundtrip(m: RpbMapRedRespView)
    requires
        rpb_map_red_resp_bytes(m).len() < 0x1_0000_0000_0000_0000,
    ensures
        rpb_map_red_resp_decode(rpb_map_red_resp_bytes(m)) == Some(m),
{
    lemma_rpb_map_red_resp_reads_back(m, 100);
}

proof fn lemma_rpb_index_req_field_bucket(cur: RpbIndexReqView, v: Seq<u8>, rest: Seq<u8>, ctx: nat)
    requires
        cur.bucket == rpb_index_req_empty().bucket,
        (bytes_piece(1, v) + rest).len() < 0x1_0000_0000_0000_0000,
        ctx >= 0,
    ensures
        rpb_index_req_merge(cur, bytes_piece(1, v) + rest, ctx) == rpb_index_req_merge((RpbIndexReqView { bucket: v, ..cur }), rest, ctx),
{
    let f = bytes_field(1, v);
    let s = bytes_piece(1, v) + rest;
    lemma_field_roundtrip(f, rest, ctx);
    lemma_field_parse_len(s, ctx);
    assert(s.skip(field_bytes(f).len() as int) =~= rest);
    assert(rpb_index_req_apply(cur, f, ctx) == Some(RpbIndexReqView { bucket: v, ..cur }));
}

proof fn lemma_rpb_index_req_field_index(cur: RpbIndexReqView, v: Seq<u8>, rest: Seq<u8>, ctx: nat)
    requires
        cur.index == rpb_index_req_empty().index,
        (bytes_piece(2, v) + rest).len() < 0x1_0000_0000_0000_0000,
        ctx >= 0,
    ensures
        rpb_index_req_merge(cur, bytes_piece(2, v) + rest, ctx) == rpb_index_req_merge((RpbIndexReqView { index: v, ..cur }), rest, ctx),
{
    let f = bytes_field(2, v);
    let s = bytes_piece(2, v) + rest;
    lemma_field_roundtrip(f, rest, ctx);
    lemma_field_parse_len(s, ctx);
    assert(s.skip(field_bytes(f).len() as int) =~= rest);
    assert(rpb_index_req_apply(cur, f, ctx) == Some(RpbIndexReqView { index: v, ..cur }));
}

proof fn lemma_rpb_index_req_field_qtype(cur: RpbIndexReqView, v: i32, rest: Seq<u8>, ctx: nat)
    requires
        cur.qtype == rpb_index_req_empty().qtype,
        (varint_piece(3, i32_code(v)) + rest).len() < 0x1_0000_0000_0000_0000,
        ctx >= 0,
    ensures
        rpb_index_req_merge(cur, varint_piece(3, i32_code(v)) + rest, ctx) == rpb_index_req_merge((RpbIndexReqView { qtype: v, ..cur }), rest, ctx),
{
    let f = varint_field(3, i32_code(v));
    let s = varint_piece(3, i32_code(v)) + rest;
    lemma_field_roundtrip(f, rest, ctx);
    lemma_field_parse_len(s, ctx);
    assert(s.skip(field_bytes(f).len() as int) =~= rest);
    lemma_i32_code_roundtrip(v);
    assert(rpb_index_req_apply(cur, f, ctx) == Some(RpbIndexReqView { qtype: v, ..cur }));
}

proof fn lemma_rpb_index_req_field_key(cur: RpbIndexReqView, v: Option<Seq<u8>>, rest: Seq<u8>, ctx: nat)
    requires
        cur.key == rpb_index_req_empty().key,
        (opt_bytes_piece(4, v) + rest).len() < 0x1_0000_0000_0000_0000,
        ctx >= 0,
    ensures
        rpb_index_req_merge(cur, opt_bytes_piece(4, v) + rest, ctx) == rpb_index_req_merge((RpbIndexReqView { key: v, ..cur }), rest, ctx),
{
    if v is Some {
        let f = bytes_field(4, v->0);
        let s = opt_bytes_piece(4, v) + rest;
        lemma_field_roundtrip(f, rest, ctx);
        lemma_field_parse_len(s, ctx);
        assert(s.skip(field_bytes(f).len() as int) =~= rest);
        assert(rpb_index_req_apply(cur, f, ctx) == Some(RpbIndexReqView { key: v, ..cur }));
    } else {
        assert(opt_bytes_piece(4, v) + rest =~= rest);
        assert((RpbIndexReqView { key: v, ..cur }) == cur);
    }
}

proof fn lemma_rpb_index_req_field_range_min(cur: RpbIndexReqView, v: Option<Seq<u8>>, rest: Seq<u8>, ctx: nat)
    requires
        cur.range_min == rpb_index_req_empty().range_min,
        (opt_bytes_piece(5, v) + rest).len() < 0x1_0000_0000_0000_0000,
        ctx >= 0,
    ensures
        rpb_index_req_merge(cur, opt_bytes_piece(5, v) + rest, ctx) == rpb_index_req_merge((RpbIndexReqView { range_min: v, ..cur }), rest, ctx),
{
    if v is Some {
        let f = bytes_field(5, v->0);
        let s = opt_bytes_piece(5, v) + rest;
        lemma_field_roundtrip(f, rest, ctx);
        lemma_field_parse_len(s, ctx);
        assert(s.skip(field_bytes(f).len() as int) =~= rest);
        assert(rpb_index_req_apply(cur, f, ctx) == Some(RpbIndexReqView { range_min: v, ..cur }));
    } else {
        assert(opt_bytes_piece(5, v) + rest =~= rest);
        assert((RpbIndexReqView { range_min: v, ..cur }) == cur);
    }
}

proof fn lemma_rpb_index_req_field_range_max(cur: RpbIndexReqView, v: Option<Seq<u8>>, rest: Seq<u8>, ctx: nat)
    requires
        cur.range_max == rpb_index_req_empty().range_max,
        (opt_bytes_piece(6, v) + rest).len() < 0x1_0000_0000_0000_0000,
        ctx >= 0,
    ensures
        rpb_index_req_merge(cur, opt_bytes_piece(6, v) + rest, ctx) == rpb_index_req_merge((RpbIndexReqView { range_max: v, ..cur }), rest, ctx),
{
    if v is Some {
        let f = bytes_field(6, v->0);
        let s = opt_bytes_piece(6, v) + rest;
        lemma_field_roundtrip(f, rest, ctx);
        lemma_field_parse_len(s, ctx);
        assert(s.skip(field_bytes(f).len() as int) =~= rest);
        assert(rpb_index_req_apply(cur, f, ctx) == Some(RpbIndexReqView { range_max: v, ..cur }));
    } else {
        assert(opt_bytes_piece(6, v) + rest =~= rest);
        assert((RpbIndexReqView { range_max: v, ..cur }) == cur);
    }
}

proof fn lemma_rpb_index_req_field_return_terms(cur: RpbIndexReqView, v: Option<bool>, rest: Seq<u8>, ctx: nat)
    requires
        cur.return_terms == rpb_index_req_empty().return_terms,
        (opt_varint_piece(7, opt_bool_code(v)) + rest).len() < 0x1_0000_0000_0000_0000,
        ctx >= 0,
    ensures
        rpb_index_req_merge(cur, opt_varint_piece(7, opt_bool_code(v)) + rest, ctx) == rpb_index_req_merge((RpbIndexReqView { return_terms: v, ..cur }), rest, ctx),
{
    if v is Some {
        let f = varint_field(7, bool_code(v->0));
        let s = opt_varint_piece(7, opt_bool_code(v)) + rest;
        lemma_field_roundtrip(f, rest, ctx);
        lemma_field_parse_len(s, ctx);
        assert(s.skip(field_bytes(f).len() as int) =~= rest);
        assert(rpb_index_req_apply(cur, f, ctx) == Some(RpbIndexReqView { return_terms: v, ..cur }));
    } else {
        assert(opt_varint_piece(7, opt_bool_code(v)) + rest =~= rest);
        assert((RpbIndexReqView { return_terms: v, ..cur }) == cur);
    }
}

proof fn lemma_rpb_index_req_field_stream(cur: RpbIndexReqView, v: Option<bool>, rest: Seq<u8>, ctx: nat)
    requires
        cur.stream == rpb_index_req_empty().stream,
        (opt_varint_piece(8, opt_bool_code(v)) + rest).len() < 0x1_0000_0000_0000_0000,
        ctx >= 0,
    ensures
        rpb_index_req_merge(cur, opt_varint_piece(8, opt_bool_code(v)) + rest, ctx) == rpb_index_req_merge((RpbIndexReqView { stream: v, ..cur }), rest, ctx),
{
    if v is Some {
        let f = varint_field(8, bool_code(v->0));
        let s = opt_varint_piece(8, opt_bool_code(v)) + rest;
        lemma_field_roundtrip(f, rest, ctx);
        lemma_field_parse_len(s, ctx);
        assert(s.skip(field_bytes(f).len() as int) =~= rest);
        assert(rpb_index_req_apply(cur, f, ctx) == Some(RpbIndexReqView { stream: v, ..cur }));
    } else {
        assert(opt_varint_piece(8, opt_bool_code(v)) + rest =~= rest);
        assert((RpbIndexReqView { stream: v, ..cur }) == cur);
    }
}

proof fn lemma_rpb_index_req_field_max_results(cur: RpbIndexReqView, v: Option<u32>, rest: Seq<u8>, ctx: nat)
    requires
        cur.max_results == rpb_index_req_empty().max_results,
        (opt_varint_piece(9, opt_u32_code(v)) + rest).len() < 0x1_0000_0000_0000_0000,
        ctx >= 0,
    ensures
        rpb_index_req_merge(cur, opt_varint_piece(9, opt_u32_code(v)) + rest, ctx) == rpb_index_req_merge((RpbIndexReqView { max_results: v, ..cur }), rest, ctx),
{
    if v is Some {
        let f = varint_field(9, v->0 as u64);
        let s = opt_varint_piece(9, opt_u32_code(v)) + rest;
        lemma_field_roundtrip(f, rest, ctx);
        lemma_field_parse_len(s, ctx);
        assert(s.skip(field_bytes(f).len() as int) =~= rest);
        assert(rpb_index_req_apply(cur, f, ctx) == Some(RpbIndexReqView { max_results: v, ..cur }));
    } else {
        assert(opt_varint_piece(9, opt_u32_code(v)) + rest =~= rest);
        assert((RpbIndexReqView { max_results: v, ..cur }) == cur);
    }
}

proof fn lemma_rpb_index_req_field_continuation(cur: RpbIndexReqView, v: Option<Seq<u8>>, rest: Seq<u8>, ctx: nat)
    requires
        cur.continuation == rpb_index_req_empty().continuation,
        (opt_bytes_piece(10, v) + rest).len() < 0x1_0000_0000_0000_0000,
        ctx >= 0,
    ensures
        rpb_index_req_merge(cur, opt_bytes_piece(10, v) + rest, ctx) == rpb_index_req_merge((RpbIndexReqView { continuation: v, ..cur }), rest, ctx),
{
    if v is Some {
        let f = bytes_field(10, v->0);
        let s = opt_bytes_piece(10, v) + rest;
        lemma_field_roundtrip(f, rest, ctx);
        lemma_field_parse_len(s, ctx);
        assert(s.skip(field_bytes(f).len() as int) =~= rest);
        assert(rpb_index_req_apply(cur, f, ctx) == Some(RpbIndexReqView { continuation: v, ..cur }));
    } else {
        assert(opt_bytes_piece(10, v) + rest =~= rest);
        assert((RpbIndexReqView { continuation: v, ..cur }) == cur);
    }
}

proof fn lemma_rpb_index_req_field_timeout(cur: RpbIndexReqView, v: Option<u32>, rest: Seq<u8>, ctx: nat)
    requires
        cur.timeout == rpb_index_req_empty().timeout,
        (opt_varint_piece(11, opt_u32_code(v)) + rest).len() < 0x1_0000_0000_0000_0000,
        ctx >= 0,
    ensures
        rpb_index_req_merge(cur, opt_varint_piece(11, opt_u32_code(v)) + rest, ctx) == rpb_index_req_merge((RpbIndexReqView { timeout: v, ..cur }), rest, ctx),
{
    if v is Some {
        let f = varint_field(11, v->0 as u64);
        let s = opt_varint_piece(11, opt_u32_code(v)) + rest;
        lemma_field_roundtrip(f, rest, ctx);
        lemma_field_parse_len(s, ctx);
        assert(s.skip(field_bytes(f).len() as int) =~= rest);
        assert(rpb_index_req_apply(cur, f, ctx) == Some(RpbIndexReqView { timeout: v, ..cur }));
    } else {
        assert(opt_varint_piece(11, opt_u32_code(v)) + rest =~= rest);
        assert((RpbIndexReqView { timeout: v, ..cur }) == cur);
    }
}

proof fn lemma_rpb_index_req_field_bucket_type(cur: RpbIndexReqView, v: Option<Seq<u8>>, rest: Seq<u8>, ctx: nat)
    requires
        cur.bucket_type == rpb_index_req_empty().bucket_type,
        (opt_bytes_piece(12, v) + rest).len() < 0x1_0000_0000_0000_0000,
        ctx >= 0,
    ensures
        rpb_index_req_merge(cur, opt_bytes_piece(12, v) + rest, ctx) == rpb_index_req_merge((RpbIndexReqView { bucket_type: v, ..cur }), rest, ctx),
{
    if v is Some {
        let f = bytes_field(12, v->0);
        let s = opt_bytes_piece(12, v) + rest;
        lemma_field_roundtrip(f, rest, ctx);
        lemma_field_parse_len(s, ctx);
        assert(s.skip(field_bytes(f).len() as int) =~= rest);
        assert(rpb_index_req_apply(cur, f, ctx) == Some(RpbIndexReqView { bucket_type: v, ..cur }));
    } else {
        assert(opt_bytes_piece(12, v) + rest =~= rest);
        assert((RpbIndexReqView { bucket_type: v, ..cur }) == cur);
    }
}

proof fn lemma_rpb_index_req_field_term_regex(cur: RpbIndexReqView, v: Option<Seq<u8>>, rest: Seq<u8>, ctx: nat)
    requires
        cur.term_regex == rpb_index_req_empty().term_regex,
        (opt_bytes_piece(13, v) + rest).len() < 0x1_0000_0000_0000_0000,
        ctx >= 0,
    ensures
        rpb_index_req_merge(cur, opt_bytes_piece(13, v) + rest, ctx) == rpb_index_req_merge((RpbIndexReqView { term_regex: v, ..cur }), rest, ctx),
{
    if v is Some {
        let f = bytes_field(13, v->0);
        let s = opt_bytes_piece(13, v) + rest;
        lemma_field_roundtrip(f, rest, ctx);
        lemma_field_parse_len(s, ctx);
        assert(s.skip(field_bytes(f).len() as int) =~= rest);
        assert(rpb_index_req_apply(cur, f, ctx) == Some(RpbIndexReqView { term_regex: v, ..cur }));
    } else {
        assert(opt_bytes_piece(13, v) + rest =~= rest);
        assert((RpbIndexReqView { term_regex: v, ..cur }) == cur);
    }
}

proof fn lemma_rpb_index_req_field_pagination_sort(cur: RpbIndexReqView, v: Option<bool>, rest: Seq<u8>, ctx: nat)
    requires
        cur.pagination_sort == rpb_index_req_empty().pagination_sort,
        (opt_varint_piece(14, opt_bool_code(v)) + rest).len() < 0x1_0000_0000_0000_0000,
        ctx >= 0,
    ensures
        rpb_index_req_merge(cur, opt_varint_piece(14, opt_bool_code(v)) + rest, ctx) == rpb_index_req_merge((RpbIndexReqView { pagination_sort: v, ..cur }), rest, ctx),
{
    if v is Some {
        let f = varint_field(14, bool_code(v->0));
        let s = opt_varint_piece(14, opt_bool_code(v)) + rest;
        lemma_field_roundtrip(f, rest, ctx);
        lemma_field_parse_len(s, ctx);
        assert(s.skip(field_bytes(f).len() as int) =~= rest);
        assert(rpb_index_req_apply(cur, f, ctx) == Some(RpbIndexReqView { pagination_sort: v, ..cur }));
    } else {
        assert(opt_varint_piece(14, opt_bool_code(v)) + rest =~= rest);
        assert((RpbIndexReqView { pagination_sort: v, ..cur }) == cur);
    }
}

proof fn lemma_rpb_index_req_field_cover_context(cur: RpbIndexReqView, v: Option<Seq<u8>>, rest: Seq<u8>, ctx: nat)
    requires
        cur.cover_context == rpb_index_req_empty().cover_context,
        (opt_bytes_piece(15, v) + rest).len() < 0x1_0000_0000_0000_0000,
        ctx >= 0,
    ensures
        rpb_index_req_merge(cur, opt_bytes_piece(15, v) + rest, ctx) == rpb_index_req_merge((RpbIndexReqView { cover_context: v, ..cur }), rest, ctx),
{
    if v is Some {
        let f = bytes_field(15, v->0);
        let s = opt_bytes_piece(15, v) + rest;
        lemma_field_roundtrip(f, rest, ctx);
        lemma_field_parse_len(s, ctx);
        assert(s.skip(field_bytes(f).len() as int) =~= rest);
        assert(rpb_index_req_apply(cur, f, ctx) == Some(RpbIndexReqView { cover_context: v, ..cur }));
    } else {
        assert(opt_bytes_piece(15, v) + rest =~= rest);
        assert((RpbIndexReqView { cover_context: v, ..cur }) == cur);
    }
}

proof fn lemma_rpb_index_req_field_return_body(cur: RpbIndexReqView, v: Option<bool>, rest: Seq<u8>, ctx: nat)
    requires
        cur.return_body == rpb_index_req_empty().return_body,
        (opt_varint_piece(16, opt_bool_code(v)) + rest).len() < 0x1_0000_0000_0000_0000,
        ctx >= 0,
    ensures
        rpb_index_req_merge(cur, opt_varint_piece(16, opt_bool_code(v)) + rest, ctx) == rpb_index_req_merge((RpbIndexReqView { return_body: v, ..cur }), rest, ctx),
{
    if v is Some {
        let f = varint_field(16, bool_code(v->0));
        let s = opt_varint_piece(16, opt_bool_code(v)) + rest;
        lemma_field_roundtrip(f, rest, ctx);
        lemma_field_parse_len(s, ctx);
        assert(s.skip(field_bytes(f).len() as int) =~= rest);
        assert(rpb_index_req_apply(cur, f, ctx) == Some(RpbIndexReqView { return_body: v, ..cur }));
    } else {
        assert(opt_varint_piece(16, opt_bool_code(v)) + rest =~= rest);
        assert((RpbIndexReqView { return_body: v, ..cur }) == cur);
    }
}

/// A `RpbIndexReq` written to bytes merges back into an empty one as itself,
/// with an allowance of at least 0.
#[verifier::rlimit(50)]
pub proof fn lemma_rpb_index_req_reads_back(m: RpbIndexReqView, ctx: nat)
    requires
        rpb_index_req_bytes(m).len() < 0x1_0000_0000_0000_0000,
        ctx >= 0,
    ensures
        rpb_index_req_merge(rpb_index_req_empty(), rpb_index_req_bytes(m), ctx) == Some(m),
{
    let p0 = bytes_piece(1, m.bucket);
    let p1 = bytes_piece(2, m.index);
    let p2 = varint_piece(3, i32_code(m.qtype));
    let p3 = opt_bytes_piece(4, m.key);
    let p4 = opt_bytes_piece(5, m.range_min);
    let p5 = opt_bytes_piece(6, m.range_max);
    let p6 = opt_varint_piece(7, opt_bool_code(m.return_terms));
    let p7 = opt_varint_piece(8, opt_bool_code(m.stream));
    let p8 = opt_varint_piece(9, opt_u32_code(m.max_results));
    let p9 = opt_bytes_piece(10, m.continuation);
    let p10 = opt_varint_piece(11, opt_u32_code(m.timeout));
    let p11 = opt_bytes_piece(12, m.bucket_type);
    let p12 = opt_bytes_piece(13, m.term_regex);
    let p13 = opt_varint_piece(14, opt_bool_code(m.pagination_sort));
    let p14 = opt_bytes_piece(15, m.cover_context);
    let p15 = opt_varint_piece(16, opt_bool_code(m.return_body));
    let s16 = Seq::<u8>::empty();
    let s15 = p15 + s16;
    let s14 = p14 + s15;
    let s13 = p13 + s14;
    let s12 = p12 + s13;
    let s11 = p11 + s12;
    let s10 = p10 + s11;
    let s9 = p9 + s10;
    let s8 = p8 + s9;
    let s7 = p7 + s8;
    let s6 = p6 + s7;
    let s5 = p5 + s6;
    let s4 = p4 + s5;
    let s3 = p3 + s4;
    let s2 = p2 + s3;
    let s1 = p1 + s2;
    let s0 = p0 + s1;
    assert(rpb_index_req_bytes(m) == s0) by {
        lemma_concat_assoc(p0, p1, s2);
        lemma_concat_assoc(p0 + p1, p2, s3);
        lemma_concat_assoc(p0 + p1 + p2, p3, s4);
        lemma_concat_assoc(p0 + p1 + p2 + p3, p4, s5);
        lemma_concat_assoc(p0 + p1 + p2 + p3 + p4, p5, s6);
        lemma_concat_assoc(p0 + p1 + p2 + p3 + p4 + p5, p6, s7);
        lemma_concat_assoc(p0 + p1 + p2 + p3 + p4 + p5 + p6, p7, s8);
        lemma_concat_assoc(p0 + p1 + p2 + p3 + p4 + p5 + p6 + p7, p8, s9);
        lemma_concat_assoc(p0 + p1 + p2 + p3 + p4 + p5 + p6 + p7 + p8, p9, s10);
        lemma_concat_assoc(p0 + p1 + p2 + p3 + p4 + p5 + p6 + p7 + p8 + p9, p10, s11);
        lemma_concat_assoc(p0 + p1 + p2 + p3 + p4 + p5 + p6 + p7 + p8 + p9 + p10, p11, s12);
        lemma_concat_assoc(p0 + p1 + p2 + p3 + p4 + p5 + p6 + p7 + p8 + p9 + p10 + p11, p12, s13);
        lemma_concat_assoc(p0 + p1 + p2 + p3 + p4 + p5 + p6 + p7 + p8 + p9 + p10 + p11 + p12, p13, s14);
        lemma_concat_assoc(p0 + p1 + p2 + p3 + p4 + p5 + p6 + p7 + p8 + p9 + p10 + p11 + p12 + p13, p14, s15);
        lemma_concat_assoc(p0 + p1 + p2 + p3 + p4 + p5 + p6 + p7 + p8 + p9 + p10 + p11 + p12 + p13 + p14, p15, s16);
        assert(p0 + p1 + p2 + p3 + p4 + p5 + p6 + p7 + p8 + p9 + p10 + p11 + p12 + p13 + p14 + p15 + s16 =~= p0 + p1 + p2 + p3 + p4 + p5 + p6 + p7 + p8 + p9 + p10 + p11 + p12 + p13 + p14 + p15);
    }
    let m0 = rpb_index_req_empty();
    let m1 = RpbIndexReqView { bucket: m.bucket, ..m0 };
    let m2 = RpbIndexReqView { index: m.index, ..m1 };
    let m3 = RpbIndexReqView { qtype: m.qtype, ..m2 };
    let m4 = RpbIndexReqView { key: m.key, ..m3 };
    let m5 = RpbIndexReqView { range_min: m.range_min, ..m4 };
    let m6 = RpbIndexReqView { range_max: m.range_max, ..m5 };
    let m7 = RpbIndexReqView { return_terms: m.return_terms, ..m6 };
    let m8 = RpbIndexReqView { stream: m.stream, ..m7 };
    let m9 = RpbIndexReqView { max_results: m.max_results, ..m8 };
    let m10 = RpbIndexReqView { continuation: m.continuation, ..m9 };
    let m11 = RpbIndexReqView { timeout: m.timeout, ..m10 };
    let m12 = RpbIndexReqView { bucket_type: m.bucket_type, ..m11 };
    let m13 = RpbIndexReqView { term_regex: m.term_regex, ..m12 };
    let m14 = RpbIndexReqView { pagination_sort: m.pagination_sort, ..m13 };
    let m15 = RpbIndexReqView { cover_context: m.cover_context, ..m14 };
    let m16 = RpbIndexReqView { return_body: m.return_body, ..m15 };
    lemma_rpb_index_req_field_bucket(m0, m.bucket, s1, ctx);
    lemma_rpb_index_req_field_index(m1, m.index, s2, ctx);
    lemma_rpb_index_req_field_qtype(m2, m.qtype, s3, ctx);
    lemma_rpb_index_req_field_key(m3, m.key, s4, ctx);
    lemma_rpb_index_req_field_range_min(m4, m.range_min, s5, ctx);
    lemma_rpb_index_req_field_range_max(m5, m.range_max, s6, ctx);
    lemma_rpb_index_req_field_return_terms(m6, m.return_terms, s7, ctx);
    lemma_rpb_index_req_field_stream(m7, m.stream, s8, ctx);
    lemma_rpb_index_req_field_max_results(m8, m.max_results, s9, ctx);
    lemma_rpb_index_req_field_continuation(m9, m.continuation, s10, ctx);
    lemma_rpb_index_req_field_timeout(m10, m.timeout, s11, ctx);
    lemma_rpb_index_req_field_bucket_type(m11, m.bucket_type, s12, ctx);
    lemma_rpb_index_req_field_term_regex(m12, m.term_regex, s13, ctx);
    lemma_rpb_index_req_field_pagination_sort(m13, m.pagination_sort, s14, ctx);
    lemma_rpb_index_req_field_cover_context(m14, m.cover_context, s15, ctx);
    lemma_rpb_index_req_field_return_body(m15, m.return_body, s16, ctx);
    assert(m16 == m);
}

/// A `RpbIndexReq` written to bytes reads back as itself.
pub proof fn lemma_rpb_index_req_roundtrip(m: RpbIndexReqView)
    requires
        rpb_index_req_bytes(m).len() < 0x1_0000_0000_0000_0000,
    ensures
        rpb_index_req_decode(rpb_index_req_bytes(m)) == Some(m),
{
    lemma_rpb_index_req_reads_back(m, 100);
}

proof fn lemma_rpb_index_resp_rep_keys(m0: RpbIndexRespView, s: Seq<Seq<u8>>, rest: Seq<u8>, ctx: nat)
    requires
        (rep_bytes_piece(1, s) + rest).len() < 0x1_0000_0000_0000_0000,
        ctx >= 1,
    ensures
        rpb_index_resp_merge(m0, rep_bytes_piece(1, s) + rest, ctx) == rpb_index_resp_merge((RpbIndexRespView { keys: m0.keys + s, ..m0 }), rest, ctx),
    decreases s.len(),
{
    let bs = s;
    if s.len() == 0 {
        assert(rep_bytes_piece(1, bs) + rest =~= rest);
        assert(m0.keys + s =~= m0.keys);
        assert((RpbIndexRespView { keys: m0.keys + s, ..m0 }) == m0);
    } else {
        let s2 = s.drop_last();
        let x = s.last();
        let f = bytes_field(1, x);
        let bs2 = s2;
        assert(bs.drop_last() =~= bs2);
        assert(rep_bytes_piece(1, bs) + rest =~= rep_bytes_piece(1, bs2) + (field_bytes(f) + rest));
        lemma_rpb_index_resp_rep_keys(m0, s2, field_bytes(f) + rest, ctx);
        let m1 = RpbIndexRespView { keys: m0.keys + s2, ..m0 };
        let tail = field_bytes(f) + rest;
        lemma_field_roundtrip(f, rest, ctx);
        lemma_field_parse_len(tail, ctx);
        assert(tail.skip(field_bytes(f).len() as int) =~= rest);
        assert(m1.keys.push(x) =~= m0.keys + s);
        assert(rpb_index_resp_apply(m1, f, ctx) == Some(RpbIndexRespView { keys: m0.keys + s, ..m0 }));
    }
}

proof fn lemma_rpb_index_resp_rep_results(m0: RpbIndexRespView, s: Seq<RpbPairView>, rest: Seq<u8>, ctx: nat)
    requires
        (rep_bytes_piece(2, s.map_values(|v: RpbPairView| rpb_pair_bytes(v))) + rest).len() < 0x1_0000_0000_0000_0000,
        ctx >= 1,
    ensures
        rpb_index_resp_merge(m0, rep_bytes_piece(2, s.map_values(|v: RpbPairView| rpb_pair_bytes(v))) + rest, ctx) == rpb_index_resp_merge((RpbIndexRespView { results: m0.results + s, ..m0 }), rest, ctx),
    decreases s.len(),
{
    let bs = s.map_values(|v: RpbPairView| rpb_pair_bytes(v));
    if s.len() == 0 {
        assert(rep_bytes_piece(2, bs) + rest =~= rest);
        assert(m0.results + s =~= m0.results);
        assert((RpbIndexRespView { results: m0.results + s, ..m0 }) == m0);
    } else {
        let s2 = s.drop_last();
        let x = s.last();
        let f = bytes_field(2, rpb_pair_bytes(x));
        let bs2 = s2.map_values(|v: RpbPairView| rpb_pair_bytes(v));
        assert(bs.drop_last() =~= bs2);
        assert(rep_bytes_piece(2, bs) + rest =~= rep_bytes_piece(2, bs2) + (field_bytes(f) + rest));
        lemma_rpb_index_resp_rep_results(m0, s2, field_bytes(f) + rest, ctx);
        let m1 = RpbIndexRespView { results: m0.results + s2, ..m0 };
        let tail = field_bytes(f) + rest;
        lemma_field_roundtrip(f, rest, ctx);
        lemma_field_parse_len(tail, ctx);
        assert(tail.skip(field_bytes(f).len() as int) =~= rest);
        lemma_rpb_pair_reads_back(x, (ctx - 1) as nat);
        assert(m1.results.push(x) =~= m0.results + s);
        assert(rpb_index_resp_apply(m1, f, ctx) == Some(RpbIndexRespView { results: m0.results + s, ..m0 }));
    }
}

proof fn lemma_rpb_index_resp_field_continuation(cur: RpbIndexRespView, v: Option<Seq<u8>>, rest: Seq<u8>, ctx: nat)
    requires
        cur.continuation == rpb_index_resp_empty().continuation,
        (opt_bytes_piece(3, v) + rest).len() < 0x1_0000_0000_0000_0000,
        ctx >= 1,
    ensures
        rpb_index_resp_merge(cur, opt_bytes_piece(3, v) + rest, ctx) == rpb_index_resp_merge((RpbIndexRespView { continuation: v, ..cur }), rest, ctx),
{
    if v is Some {
        let f = bytes_field(3, v->0);
        let s = opt_bytes_piece(3, v) + rest;
        lemma_field_roundtrip(f, rest, ctx);
        lemma_field_parse_len(s, ctx);
        assert(s.skip(field_bytes(f).len() as int) =~= rest);
        assert(rpb_index_resp_apply(cur, f, ctx) == Some(RpbIndexRespView { continuation: v, ..cur }));
    } else {
        assert(opt_bytes_piece(3, v) + rest =~= rest);
        assert((RpbIndexRespView { continuation: v, ..cur }) == cur);
    }
}

proof fn lemma_rpb_index_resp_field_done(cur: RpbIndexRespView, v: Option<bool>, rest: Seq<u8>, ctx: nat)
    requires
        cur.done == rpb_index_resp_empty().done,
        (opt_varint_piece(4, opt_bool_code(v)) + rest).len() < 0x1_0000_0000_0000_0000,
        ctx >= 1,
    ensures
        rpb_index_resp_merge(cur, opt_varint_piece(4, opt_bool_code(v)) + rest, ctx) == rpb_index_resp_merge((RpbIndexRespView { done: v, ..cur }), rest, ctx),
{
    if v is Some {
        let f = varint_field(4, bool_code(v->0));
        let s = opt_varint_piece(4, opt_bool_code(v)) + rest;
        lemma_field_roundtrip(f, rest, ctx);
        lemma_field_parse_len(s, ctx);
        assert(s.skip(field_bytes(f).len() as int) =~= rest);
        assert(rpb_index_resp_apply(cur, f, ctx) == Some(RpbIndexRespView { done: v, ..cur }));
    } else {
        assert(opt_varint_piece(4, opt_bool_code(v)) + rest =~= rest);
        assert((RpbIndexRespView { done: v, ..cur }) == cur);
    }
}

/// A `RpbIndexResp` written to bytes merges back into an empty one as itself,
/// with an allowance of at least 1.
#[verifier::rlimit(50)]
pub proof fn lemma_rpb_index_resp_reads_back(m: RpbIndexRespView, ctx: nat)
    requires
        rpb_index_resp_bytes(m).len() < 0x1_0000_0000_0000_0000,
        ctx >= 1,
    ensures
        rpb_index_resp_merge(rpb_index_resp_empty(), rpb_index_resp_bytes(m), ctx) == Some(m),
{
    let p0 = rep_bytes_piece(1, m.keys);
    let p1 = rep_bytes_piece(2, m.results.map_values(|s: RpbPairView| rpb_pair_bytes(s)));
    let p2 = opt_bytes_piece(3, m.continuation);
    let p3 = opt_varint_piece(4, opt_bool_code(m.done));
    let s4 = Seq::<u8>::empty();
    let s3 = p3 + s4;
    let s2 = p2 + s3;
    let s1 = p1 + s2;
    let s0 = p0 + s1;
    assert(rpb_index_resp_bytes(m) == s0) by {
        lemma_concat_assoc(p0, p1, s2);
        lemma_concat_assoc(p0 + p1, p2, s3);
        lemma_concat_assoc(p0 + p1 + p2, p3, s4);
        assert(p0 + p1 + p2 + p3 + s4 =~= p0 + p1 + p2 + p3);
    }
    let m0 = rpb_index_resp_empty();
    let m1 = RpbIndexRespView { keys: m.keys, ..m0 };
    let m2 = RpbIndexRespView { results: m.results, ..m1 };
    let m3 = RpbIndexRespView { continuation: m.continuation, ..m2 };
    let m4 = RpbIndexRespView { done: m.done, ..m3 };
    lemma_rpb_index_resp_rep_keys(m0, m.keys, s1, ctx);
    assert(m0.keys + m.keys =~= m.keys);
    lemma_rpb_index_resp_rep_results(m1, m.results, s2, ctx);
    assert(m1.results + m.results =~= m.results);
    lemma_rpb_index_resp_field_continuation(m2, m.continuation, s3, ctx);
    lemma_rpb_index_resp_field_done(m3, m.done, s4, ctx);
    assert(m4 == m);
}

/// A `RpbIndexResp` written to bytes reads back as itself.
pub proof fn lemma_rpb_index_resp_roundtrip(m: RpbIndexRespView)
    requires
        rpb_index_resp_bytes(m).len() < 0x1_0000_0000_0000_0000,
    ensures
        rpb_index_resp_decode(rpb_index_resp_bytes(m)) == Some(m),
{
    lemma_rpb_index_resp_reads_back(m, 100);
}

proof fn lemma_rpb_get_bucket_key_preflist_req_field_bucket(cur: RpbGetBucketKeyPreflistReqView, v: Seq<u8>, rest: Seq<u8>, ctx: nat)
    requires
        cur.bucket == rpb_get_bucket_key_preflist_req_empty().bucket,
        (bytes_piece(1, v) + rest).len() < 0x1_0000_0000_0000_0000,
        ctx >= 0,
    ensures
        rpb_get_bucket_key_preflist_req_merge(cur, bytes_piece(1, v) + rest, ctx) == rpb_get_bucket_key_preflist_req_merge((RpbGetBucketKeyPreflistReqView { bucket: v, ..cur }), rest, ctx),
{
    let f = bytes_field(1, v);
    let s = bytes_piece(1, v) + rest;
    lemma_field_roundtrip(f, rest, ctx);
    lemma_field_parse_len(s, ctx);
    assert(s.skip(field_bytes(f).len() as int) =~= rest);
    assert(rpb_get_bucket_key_preflist_req_apply(cur, f, ctx) == Some(RpbGetBucketKeyPreflistReqView { bucket: v, ..cur }));
}

proof fn lemma_rpb_get_bucket_key_preflist_req_field_key(cur: RpbGetBucketKeyPreflistReqView, v: Seq<u8>, rest: Seq<u8>, ctx: nat)
    requires
        cur.key == rpb_get_bucket_key_preflist_req_empty().key,
        (bytes_piece(2, v) + rest).len() < 0x1_0000_0000_0000_0000,
        ctx >= 0,
    ensures
        rpb_get_bucket_key_preflist_req_merge(cur, bytes_piece(2, v) + rest, ctx) == rpb_get_bucket_key_preflist_req_merge((RpbGetBucketKeyPreflistReqView { key: v, ..cur }), rest, ctx),
{
    let f = bytes_field(2, v);
    let s = bytes_piece(2, v) + rest;
    lemma_field_roundtrip(f, rest, ctx);
    lemma_field_parse_len(s, ctx);
    assert(s.skip(field_bytes(f).len() as int) =~= rest);
    assert(rpb_get_bucket_key_preflist_req_apply(cur, f, ctx) == Some(RpbGetBucketKeyPreflistReqView { key: v, ..cur }));
}

proof fn lemma_rpb_get_bucket_key_preflist_req_field_bucket_type(cur: RpbGetBucketKeyPreflistReqView, v: Option<Seq<u8>>, rest: Seq<u8>, ctx: nat)
    requires
        cur.bucket_type == rpb_get_bucket_key_preflist_req_empty().bucket_type,
        (opt_bytes_piece(3, v) + rest).len() < 0x1_0000_0000_0000_0000,
        ctx >= 0,
    ensures
        rpb_get_bucket_key_preflist_req_merge(cur, opt_bytes_piece(3, v) + rest, ctx) == rpb_get_bucket_key_preflist_req_merge((RpbGetBucketKeyPreflistReqView { bucket_type: v, ..cur }), rest, ctx),
{
    if v is Some {
        let f = bytes_field(3, v->0);
        let s = opt_bytes_piece(3, v) + rest;
        lemma_field_roundtrip(f, rest, ctx);
        lemma_field_parse_len(s, ctx);
        assert(s.skip(field_bytes(f).len() as int) =~= rest);
        assert(rpb_get_bucket_key_preflist_req_apply(cur, f, ctx) == Some(RpbGetBucketKeyPreflistReqView { bucket_type: v, ..cur }));
    } else {
        assert(opt_bytes_piece(3, v) + rest =~= rest);
        assert((RpbGetBucketKeyPreflistReqView { bucket_type: v, ..cur }) == cur);
    }
}

/// A `RpbGetBucketKeyPreflistReq` written to bytes merges back into an empty one as itself,
/// with an allowance of at least 0.
#[verifier::rlimit(50)]
pub proof fn lemma_rpb_get_bucket_key_preflist_req_reads_back(m: RpbGetBucketKeyPreflistReqView, ctx: nat)
    requires
        rpb_get_bucket_key_preflist_req_bytes(m).len() < 0x1_0000_0000_0000_0000,
        ctx >= 0,
    ensures
        rpb_get_bucket_key_preflist_req_merge(rpb_get_bucket_key_preflist_req_empty(), rpb_get_bucket_key_preflist_req_bytes(m), ctx) == Some(m),
{
    let p0 = bytes_piece(1, m.bucket);
    let p1 = bytes_piece(2, m.key);
    let p2 = opt_bytes_piece(3, m.bucket_type);
    let s3 = Seq::<u8>::empty();
    let s2 = p2 + s3;
    let s1 = p1 + s2;
    let s0 = p0 + s1;
    assert(rpb_get_bucket_key_preflist_req_bytes(m) == s0) by {
        lemma_concat_assoc(p0, p1, s2);
        lemma_concat_assoc(p0 + p1, p2, s3);
        assert(p0 + p1 + p2 + s3 =~= p0 + p1 + p2);
    }
    let m0 = rpb_get_bucket_key_preflist_req_empty();
    let m1 = RpbGetBucketKeyPreflistReqView { bucket: m.bucket, ..m0 };
    let m2 = RpbGetBucketKeyPreflistReqView { key: m.key, ..m1 };
    let m3 = RpbGetBucketKeyPreflistReqView { bucket_type: m.bucket_type, ..m2 };
    lemma_rpb_get_bucket_key_preflist_req_field_bucket(m0, m.bucket, s1, ctx);
    lemma_rpb_get_bucket_key_preflist_req_field_key(m1, m.key, s2, ctx);
    lemma_rpb_get_bucket_key_preflist_req_field_bucket_type(m2, m.bucket_type, s3, ctx);
    assert(m3 == m);
}

/// A `RpbGetBucketKeyPreflistReq` written to bytes reads back as itself.
pub proof fn lemma_rpb_get_bucket_key_preflist_req_roundtrip(m: RpbGetBucketKeyPreflistReqView)
    requires
        rpb_get_bucket_key_preflist_req_bytes(m).len() < 0x1_0000_0000_0000_0000,
    ensures
        rpb_get_bucket_key_preflist_req_decode(rpb_get_bucket_key_preflist_req_bytes(m)) == Some(m),
{
    lemma_rpb_get_bucket_key_preflist_req_reads_back(m, 100);
}

proof fn lemma_rpb_bucket_key_preflist_item_field_partition(cur: RpbBucketKeyPreflistItemView, v: i64, rest: Seq<u8>, ctx: nat)
    requires
        cur.partition == rpb_bucket_key_preflist_item_empty().partition,
        (varint_piece(1, i64_code(v)) + rest).len() < 0x1_0000_0000_0000_0000,
        ctx >= 0,
    ensures
        rpb_bucket_key_preflist_item_merge(cur, varint_piece(1, i64_code(v)) + rest, ctx) == rpb_bucket_key_preflist_item_merge((RpbBucketKeyPreflistItemView { partition: v, ..cur }), rest, ctx),
{
    let f = varint_field(1, i64_code(v));
    let s = varint_piece(1, i64_code(v)) + rest;
    lemma_field_roundtrip(f, rest, ctx);
    lemma_field_parse_len(s, ctx);
    assert(s.skip(field_bytes(f).len() as int) =~= rest);
    lemma_i64_code_roundtrip(v);
    assert(rpb_bucket_key_preflist_item_apply(cur, f, ctx) == Some(RpbBucketKeyPreflistItemView { partition: v, ..cur }));
}

proof fn lemma_rpb_bucket_key_preflist_item_field_node(cur: RpbBucketKeyPreflistItemView, v: Seq<u8>, rest: Seq<u8>, ctx: nat)
    requires
        cur.node == rpb_bucket_key_preflist_item_empty().node,
        (bytes_piece(2, v) + rest).len() < 0x1_0000_0000_0000_0000,
        ctx >= 0,
    ensures
        rpb_bucket_key_preflist_item_merge(cur, bytes_piece(2, v) + rest, ctx) == rpb_bucket_key_preflist_item_merge((RpbBucketKeyPreflistItemView { node: v, ..cur }), rest, ctx),
{
    let f = bytes_field(2, v);
    let s = bytes_piece(2, v) + rest;
    lemma_field_roundtrip(f, rest, ctx);
    lemma_field_parse_len(s, ctx);
    assert(s.skip(field_bytes(f).len() as int) =~= rest);
    assert(rpb_bucket_key_preflist_item_apply(cur, f, ctx) == Some(RpbBucketKeyPreflistItemView { node: v, ..cur }));
}

proof fn lemma_rpb_bucket_key_preflist_item_field_primary(cur: RpbBucketKeyPreflistItemView, v: bool, rest: Seq<u8>, ctx: nat)
    requires
        cur.primary == rpb_bucket_key_preflist_item_empty().primary,
        (varint_piece(3, bool_code(v)) + rest).len() < 0x1_0000_0000_0000_0000,
        ctx >= 0,
    ensures
        rpb_bucket_key_preflist_item_merge(cur, varint_piece(3, bool_code(v)) + rest, ctx) == rpb_bucket_key_preflist_item_merge((RpbBucketKeyPreflistItemView { primary: v, ..cur }), rest, ctx),
{
    let f = varint_field(3, bool_code(v));
    let s = varint_piece(3, bool_code(v)) + rest;
    lemma_field_roundtrip(f, rest, ctx);
    lemma_field_parse_len(s, ctx);
    assert(s.skip(field_bytes(f).len() as int) =~= rest);
    assert(rpb_bucket_key_preflist_item_apply(cur, f, ctx) == Some(RpbBucketKeyPreflistItemView { primary: v, ..cur }));
}

/// A `RpbBucketKeyPreflistItem` written to bytes merges back into an empty one as itself,
/// with an allowance of at least 0.
#[verifier::rlimit(50)]
pub proof fn lemma_rpb_bucket_key_preflist_item_reads_back(m: RpbBucketKeyPreflistItemView, ctx: nat)
    requires
        rpb_bucket_key_preflist_item_bytes(m).len() < 0x1_0000_0000_0000_0000,
        ctx >= 0,
    ensures
        rpb_bucket_key_preflist_item_merge(rpb_bucket_key_preflist_item_empty(), rpb_bucket_key_preflist_item_bytes(m), ctx) == Some(m),
{
    let p0 = varint_piece(1, i64_code(m.partition));
    let p1 = bytes_piece(2, m.node);
    let p2 = varint_piece(3, bool_code(m.primary));
    let s3 = Seq::<u8>::empty();
    let s2 = p2 + s3;
    let s1 = p1 + s2;
    let s0 = p0 + s1;
    assert(rpb_bucket_key_preflist_item_bytes(m) == s0) by {
        lemma_concat_assoc(p0, p1, s2);
        lemma_concat_assoc(p0 + p1, p2, s3);
        assert(p0 + p1 + p2 + s3 =~= p0 + p1 + p2);
    }
    let m0 = rpb_bucket_key_preflist_item_empty();
    let m1 = RpbBucketKeyPreflistItemView { partition: m.partition, ..m0 };
    let m2 = RpbBucketKeyPreflistItemView { node: m.node, ..m1 };
    let m3 = RpbBucketKeyPreflistItemView { primary: m.primary, ..m2 };
    lemma_rpb_bucket_key_preflist_item_field_partition(m0, m.partition, s1, ctx);
    lemma_rpb_bucket_key_preflist_item_field_node(m1, m.node, s2, ctx);
    lemma_rpb_bucket_key_preflist_item_field_primary(m2, m.primary, s3, ctx);
    assert(m3 == m);
}

/// A `RpbBucketKeyPreflistItem` written to bytes reads back as itself.
pub proof fn lemma_rpb_bucket_key_preflist_item_roundtrip(m: RpbBucketKeyPreflistItemView)
    requires
        rpb_bucket_key_preflist_item_bytes(m).len() < 0x1_0000_0000_0000_0000,
    ensures
        rpb_bucket_key_preflist_item_decode(rpb_bucket_key_preflist_item_bytes(m)) == Some(m),
{
    lemma_rpb_bucket_key_preflist_item_reads_back(m, 100);
}

proof fn lemma_rpb_get_bucket_key_preflist_resp_rep_preflist(m0: RpbGetBucketKeyPreflistRespView, s: Seq<RpbBucketKeyPreflistItemView>, rest: Seq<u8>, ctx: nat)
    requires
        (rep_bytes_piece(1, s.map_values(|v: RpbBucketKeyPreflistItemView| rpb_bucket_key_preflist_item_bytes(v))) + rest).len() < 0x1_0000_0000_0000_0000,
        ctx >= 1,
    ensures
        rpb_get_bucket_key_preflist_resp_merge(m0, rep_bytes_piece(1, s.map_values(|v: RpbBucketKeyPreflistItemView| rpb_bucket_key_preflist_item_bytes(v))) + rest, ctx) == rpb_get_bucket_key_preflist_resp_merge((RpbGetBucketKeyPreflistRespView { preflist: m0.preflist + s, ..m0 }), rest, ctx),
    decreases s.len(),
{
    let bs = s.map_values(|v: RpbBucketKeyPreflistItemView| rpb_bucket_key_preflist_item_bytes(v));
    if s.len() == 0 {
        assert(rep_bytes_piece(1, bs) + rest =~= rest);
        assert(m0.preflist + s =~= m0.preflist);
        assert((RpbGetBucketKeyPreflistRespView { preflist: m0.preflist + s, ..m0 }) == m0);
    } else {
        let s2 = s.drop_last();
        let x = s.last();
        let f = bytes_field(1, rpb_bucket_key_preflist_item_bytes(x));
        let bs2 = s2.map_values(|v: RpbBucketKeyPreflistItemView| rpb_bucket_key_preflist_item_bytes(v));
        assert(bs.drop_last() =~= bs2);
        assert(rep_bytes_piece(1, bs) + rest =~= rep_bytes_piece(1, bs2) + (field_bytes(f) + rest));
        lemma_rpb_get_bucket_key_preflist_resp_rep_preflist(m0, s2, field_bytes(f) + rest, ctx);
        let m1 = RpbGetBucketKeyPreflistRespView { preflist: m0.preflist + s2, ..m0 };
        let tail = field_bytes(f) + rest;
        lemma_field_roundtrip(f, rest, ctx);
        lemma_field_parse_len(tail, ctx);
        assert(tail.skip(field_bytes(f).len() as int) =~= rest);
        lemma_rpb_bucket_key_preflist_item_reads_back(x, (ctx - 1) as nat);
        assert(m1.preflist.push(x) =~= m0.preflist + s);
        assert(rpb_get_bucket_key_preflist_resp_apply(m1, f, ctx) == Some(RpbGetBucketKeyPreflistRespView { preflist: m0.preflist + s, ..m0 }));
    }
}

/// A `RpbGetBucketKeyPreflistResp` written to bytes merges back into an empty one as itself,
/// with an allowance of at least 1.
#[verifier::rlimit(50)]
pub proof fn lemma_rpb_get_bucket_key_preflist_resp_reads_back(m: RpbGetBucketKeyPreflistRespView, ctx: nat)
    requires
        rpb_get_bucket_key_preflist_resp_bytes(m).len() < 0x1_0000_0000_0000_0000,
        ctx >= 1,
    ensures
        rpb_get_bucket_key_preflist_resp_merge(rpb_get_bucket_key_preflist_resp_empty(), rpb_get_bucket_key_preflist_resp_bytes(m), ctx) == Some(m),
{
    let p0 = rep_bytes_piece(1, m.preflist.map_values(|s: RpbBucketKeyPreflistItemView| rpb_bucket_key_preflist_item_bytes(s)));
    let s1 = Seq::<u8>::empty();
    let s0 = p0 + s1;
    assert(rpb_get_bucket_key_preflist_resp_bytes(m) == s0) by {
        assert(p0 + s1 =~= p0);
    }
    let m0 = rpb_get_bucket_key_preflist_resp_empty();
    let m1 = RpbGetBucketKeyPreflistRespView { preflist: m.preflist, ..m0 };
    lemma_rpb_get_bucket_key_preflist_resp_rep_preflist(m0, m.preflist, s1, ctx);
    assert(m0.preflist + m.preflist =~= m.preflist);
    assert(m1 == m);
}

/// A `RpbGetBucketKeyPreflistResp` written to bytes reads back as itself.
pub proof fn lemma_rpb_get_bucket_key_preflist_resp_roundtrip(m: RpbGetBucketKeyPreflistRespView)
    requires
        rpb_get_bucket_key_preflist_resp_bytes(m).len() < 0x1_0000_0000_0000_0000,
    ensures
        rpb_get_bucket_key_preflist_resp_decode(rpb_get_bucket_key_preflist_resp_bytes(m)) == Some(m),
{
    lemma_rpb_get_bucket_key_preflist_resp_reads_back(m, 100);
}

} // verus!
