//! Streamed replies: the requests that start them, what each part holds,
//! and the state of a stream between parts.
//!
//! A streamed request is sent once; the server then answers with parts,
//! the last of which says that it is done. Listing buckets or keys can be
//! expensive for the server.
//!
//! For more information: https://docs.basho.com/riak/kv/latest/developing/api/protocol-buffers/list-buckets/
use crate::bytes::utf8_lossy;
use crate::codes::MAP_RED_RESP;
use crate::connection::{ConnectionState, after_part, after_send, check_response, send_accepted};
use crate::errors::RiakErr;
use crate::proto::kv::{
    RpbIndexResp, RpbListBucketsReq, RpbListBucketsReqView, RpbListBucketsResp, RpbListKeysReq,
    RpbListKeysReqView, RpbListKeysResp, RpbMapRedResp, rpb_index_resp_decode,
    rpb_list_buckets_req_bytes, rpb_list_buckets_resp_decode, rpb_list_keys_req_bytes,
    rpb_list_keys_resp_decode, rpb_map_red_resp_decode,
};
use crate::secondary_index::IndexResp;
use crate::wire::{bool_or_false, bytes_or_empty, bytes_seq_view, opt_bytes_view};
use vstd::prelude::*;

verus! {

/// The value of a stream's state: the request, until it has been sent, and
/// whether the last part has come.
pub type StreamModel = (Option<Seq<u8>>, bool);

/// What `StreamState::next_part` does: the new state, and what it gives.
pub open spec fn next_part_step(st: StreamModel) -> (StreamModel, Option<Option<Seq<u8>>>) {
    if st.1 {
        (st, None)
    } else {
        ((None, false), Some(st.0))
    }
}

/// A stream read part after part, on a connection that is `broken` or not,
/// the parts carrying the done flags `dones` in turn: the stream's state
/// and the connection's afterwards, and how many requests were sent. Once
/// the last part has come, later parts are not read.
pub open spec fn stream_run(st: StreamModel, broken: bool, dones: Seq<bool>) -> (StreamModel, bool, nat)
    decreases dones.len(),
{
    if dones.len() == 0 {
        (st, broken, 0)
    } else {
        match next_part_step(st).1 {
            None => (st, broken, 0),
            Some(req) => {
                let sent: nat = if req is Some {
                    1
                } else {
                    0
                };
                let b1 = if req is Some {
                    after_send(broken)
                } else {
                    broken
                };
                let st1 = (next_part_step(st).0.0, dones[0]);
                let rest = stream_run(st1, after_part(b1, dones[0]), dones.drop_first());
                (rest.0, rest.1, rest.2 + sent)
            },
        }
    }
}

proof fn lemma_stream_run_sent(st: StreamModel, broken: bool, dones: Seq<bool>)
    requires
        st.0 is None,
        !st.1,
    ensures
        stream_run(st, broken, dones).2 == 0,
        dones.len() > 0 && (forall|i: int| 0 <= i < dones.len() ==> !dones[i]) ==> stream_run(
            st,
            broken,
            dones,
        ).1 == broken && !stream_run(st, broken, dones).0.1,
        dones.len() > 0 && dones.last() && (forall|i: int| 0 <= i < dones.len() - 1 ==> !dones[i])
            ==> !stream_run(st, broken, dones).1 && stream_run(st, broken, dones).0.1,
    decreases dones.len(),
{
    if dones.len() > 0 {
        let st1 = (None::<Seq<u8>>, dones[0]);
        let rest = dones.drop_first();
        if dones[0] {
            lemma_stream_run_done(st1, false, rest);
        } else {
            lemma_stream_run_sent(st1, after_part(broken, dones[0]), rest);
            if forall|i: int| 0 <= i < dones.len() ==> !dones[i] {
                assert forall|i: int| 0 <= i < rest.len() implies !rest[i] by {
                    assert(!dones[i + 1]);
                }
            }
            if dones.last() && (forall|i: int| 0 <= i < dones.len() - 1 ==> !dones[i]) {
                assert(rest.last() == dones.last());
                assert forall|i: int| 0 <= i < rest.len() - 1 implies !rest[i] by {
                    assert(!dones[i + 1]);
                }
            }
        }
    }
}

proof fn lemma_stream_run_done(st: StreamModel, broken: bool, dones: Seq<bool>)
    requires
        st.1,
    ensures
        stream_run(st, broken, dones) == (st, broken, 0nat),
{
}

/// A stream on a usable connection sends its request once, with the first
/// part. Where its last part has come, the connection is usable again and
/// no further part is read; where it stops before that (dropped, or a
/// part failed to be read), the connection stays broken, holding unread
/// reply data.
pub proof fn lemma_stream(request: Seq<u8>, dones: Seq<bool>)
    requires
        dones.len() > 0,
    ensures
        send_accepted(false),
        stream_run((Some(request), false), false, dones).2 == 1,
        (forall|i: int| 0 <= i < dones.len() ==> !dones[i]) ==> stream_run(
            (Some(request), false),
            false,
            dones,
        ).1,
        dones.last() && (forall|i: int| 0 <= i < dones.len() - 1 ==> !dones[i]) ==> {
            let after = stream_run((Some(request), false), false, dones);
            &&& !after.1
            &&& after.0.1
            &&& next_part_step(after.0) == (after.0, None::<Option<Seq<u8>>>)
        },
{
    let st1 = (None::<Seq<u8>>, dones[0]);
    let rest = dones.drop_first();
    if dones[0] {
        lemma_stream_run_done(st1, false, rest);
    } else {
        lemma_stream_run_sent(st1, true, rest);
        if forall|i: int| 0 <= i < dones.len() ==> !dones[i] {
            assert forall|i: int| 0 <= i < rest.len() implies !rest[i] by {
                assert(!dones[i + 1]);
            }
        }
        if dones.last() && (forall|i: int| 0 <= i < dones.len() - 1 ==> !dones[i]) {
            assert(rest.last() == dones.last());
            assert forall|i: int| 0 <= i < rest.len() - 1 implies !rest[i] by {
                assert(!dones[i + 1]);
            }
        }
    }
}

/// A MapReduce job, its stream in state `st`, on a connection that is
/// `broken` or not, its parts coming as `parts` say: `Some(done)` for a part
/// that was read and decoded, with its done flag, and `None` for one that
/// failed (reading met an error, or `mapreduce_part_outcome` is `None`: the
/// frame had another code or its message did not decode). Gives whether the job ends well (`Some(true)`), fails
/// (`Some(false)`) or still waits for parts (`None`), and whether the
/// connection is broken afterwards. The request goes out with the first
/// part, and is refused on a broken connection; the job stops at the first
/// failed part; once the last part has come, the connection is marked usable.
pub open spec fn mapreduce_run(st: StreamModel, broken: bool, parts: Seq<Option<bool>>) -> (Option<bool>, bool)
    decreases parts.len(),
{
    match next_part_step(st).1 {
        None => (Some(true), false),
        Some(req) => if req is Some && !send_accepted(broken) {
            (Some(false), after_send(broken))
        } else {
            let b1 = if req is Some {
                after_send(broken)
            } else {
                broken
            };
            if parts.len() == 0 {
                (None, b1)
            } else {
                match parts[0] {
                    None => (Some(false), b1),
                    Some(done) => mapreduce_run(
                        (next_part_step(st).0.0, done),
                        after_part(b1, done),
                        parts.drop_first(),
                    ),
                }
            }
        },
    }
}

/// Whether a part with the done flag comes before any part fails.
pub open spec fn parts_end_well(parts: Seq<Option<bool>>) -> bool
    decreases parts.len(),
{
    parts.len() > 0 && match parts[0] {
        None => false,
        Some(done) => done || parts_end_well(parts.drop_first()),
    }
}

proof fn lemma_mapreduce_after_send(parts: Seq<Option<bool>>)
    ensures
        mapreduce_run((None, false), true, parts) matches (Some(ok), b) ==> (ok <==> !b),
        mapreduce_run((None, false), true, parts).0 == Some(true) <==> parts_end_well(parts),
    decreases parts.len(),
{
    reveal_with_fuel(mapreduce_run, 2);
    if parts.len() > 0 {
        let rest = parts.drop_first();
        if let Some(done) = parts[0] {
            if done {
                assert(mapreduce_run((None, false), true, parts) == mapreduce_run((None, true), false, rest));
            } else {
                assert(mapreduce_run((None, false), true, parts) == mapreduce_run((None, false), true, rest));
                lemma_mapreduce_after_send(rest);
            }
        }
    }
}

/// A MapReduce job, run with `StreamState::next_part`, `begin_send` and
/// `mapreduce_part`, ends well exactly where its connection is usable
/// afterwards: a failed job (on a broken connection, or with a part that
/// could not be read, had another code or did not decode) leaves the
/// connection broken. On a broken connection the job fails at once; on a
/// usable one it ends well exactly where a part with the done flag comes
/// before any part fails.
pub proof fn lemma_mapreduce(request: Seq<u8>, broken: bool, parts: Seq<Option<bool>>)
    ensures
        mapreduce_run((Some(request), false), broken, parts) matches (Some(ok), b) ==> (ok <==> !b),
        broken ==> mapreduce_run((Some(request), false), broken, parts) == (Some(false), true),
        !broken ==> (mapreduce_run((Some(request), false), broken, parts).0 == Some(true)
            <==> parts_end_well(parts)),
{
    reveal_with_fuel(mapreduce_run, 2);
    if !broken && parts.len() > 0 {
        let rest = parts.drop_first();
        if let Some(done) = parts[0] {
            if done {
                assert(mapreduce_run((Some(request), false), broken, parts) == mapreduce_run(
                    (None, true),
                    false,
                    rest,
                ));
            } else {
                assert(mapreduce_run((Some(request), false), broken, parts) == mapreduce_run(
                    (None, false),
                    true,
                    rest,
                ));
                lemma_mapreduce_after_send(rest);
            }
        }
    }
}

/// The state of a stream: the request, until it has been sent, and whether
/// the last part has come.
#[derive(Debug)]
pub struct StreamState {
    request: Option<Vec<u8>>,
    done: bool,
}

impl View for StreamState {
    type V = (Option<Seq<u8>>, bool);

    closed spec fn view(&self) -> (Option<Seq<u8>>, bool) {
        (opt_bytes_view(self.request), self.done)
    }
}

impl StreamState {
    /// A stream that has yet to send `request`.
    pub fn new(request: Vec<u8>) -> (r: StreamState)
        ensures
            r@ == (Some(request@), false),
    {
        StreamState { request: Some(request), done: false }
    }

    /// What to do for the next part: `None` where the last part has come,
    /// and then nothing is read and the state stays; otherwise the request
    /// to send before the part is read, which is the stream's request the
    /// first time and nothing after.
    pub fn next_part(&mut self) -> (r: Option<Option<Vec<u8>>>)
        ensures
            (final(self)@, match r {
                Some(req) => Some(opt_bytes_view(req)),
                None => None,
            }) == next_part_step(old(self)@),
    {
        if self.done {
            return None;
        }
        Some(self.request.take())
    }

    /// Whether the last part has come: then no further part is read.
    pub fn is_done(&self) -> (r: bool)
        ensures
            r == self@.1,
    {
        self.done
    }

    /// Records that a part has come, and whether it was the last. After the
    /// last part the connection holds no unread data.
    pub fn record(&mut self, done: bool, conn: &mut ConnectionState)
        ensures
            final(self)@ == (old(self)@.0, done),
            final(conn)@ == after_part(old(conn)@, done),
    {
        self.done = done;
        if done {
            conn.mark_stream_done();
        }
    }
}

/// The request that streams the names of all buckets.
pub fn bucket_list_request() -> (r: Vec<u8>)
    ensures
        r@ == rpb_list_buckets_req_bytes(
            RpbListBucketsReqView { timeout: None, stream: Some(true), bucket_type: None },
        ),
{
    let req = RpbListBucketsReq { timeout: None, stream: Some(true), bucket_type: None };
    req.encode_to_vec()
}

/// The request that streams the keys of `bucket`.
pub fn key_list_request(bucket: Vec<u8>) -> (r: Vec<u8>)
    ensures
        r@ == rpb_list_keys_req_bytes(
            RpbListKeysReqView { bucket: bucket@, timeout: None, bucket_type: None },
        ),
{
    let req = RpbListKeysReq { bucket, timeout: None, bucket_type: None };
    req.encode_to_vec()
}

/// The bucket names that a part holds, and whether it is the last.
pub fn bucket_batch(part: &[u8]) -> (r: Result<(Vec<Vec<u8>>, bool), RiakErr>)
    ensures
        match r {
            Ok((names, done)) => rpb_list_buckets_resp_decode(part@) matches Some(m) && bytes_seq_view(
                names@,
            ) == m.buckets && done == bool_or_false(m.done),
            Err(e) => rpb_list_buckets_resp_decode(part@) is None && e is ProtobufError,
        },
{
    match RpbListBucketsResp::decode(part) {
        Ok(m) => {
            let done = match m.done {
                Some(d) => d,
                None => false,
            };
            Ok((m.buckets, done))
        },
        Err(e) => Err(RiakErr::ProtobufError(e)),
    }
}

/// The keys that a part holds, and whether it is the last.
pub fn key_batch(part: &[u8]) -> (r: Result<(Vec<Vec<u8>>, bool), RiakErr>)
    ensures
        match r {
            Ok((keys, done)) => rpb_list_keys_resp_decode(part@) matches Some(m) && bytes_seq_view(
                keys@,
            ) == m.keys && done == bool_or_false(m.done),
            Err(e) => rpb_list_keys_resp_decode(part@) is None && e is ProtobufError,
        },
{
    match RpbListKeysResp::decode(part) {
        Ok(m) => {
            let done = match m.done {
                Some(d) => d,
                None => false,
            };
            Ok((m.keys, done))
        },
        Err(e) => Err(RiakErr::ProtobufError(e)),
    }
}

/// The answer that a part of a streamed index query holds, and whether it
/// is the last.
pub fn index_batch(part: &[u8]) -> (r: Result<(IndexResp, bool), RiakErr>)
    ensures
        match r {
            Ok((resp, done)) => rpb_index_resp_decode(part@) matches Some(m) && resp@ == m && done
                == bool_or_false(m.done),
            Err(e) => rpb_index_resp_decode(part@) is None && e is ProtobufError,
        },
{
    match RpbIndexResp::decode(part) {
        Ok(m) => {
            let done = match m.done {
                Some(d) => d,
                None => false,
            };
            Ok((IndexResp::from_proto(m), done))
        },
        Err(e) => Err(RiakErr::ProtobufError(e)),
    }
}

/// The result that a part of a MapReduce reply holds (empty where it holds
/// none), and whether it is the last.
pub fn mapreduce_batch(part: &[u8]) -> (r: Result<(Vec<u8>, bool), RiakErr>)
    ensures
        match r {
            Ok((data, done)) => rpb_map_red_resp_decode(part@) matches Some(m) && data@
                == bytes_or_empty(m.response) && done == bool_or_false(m.done),
            Err(e) => rpb_map_red_resp_decode(part@) is None && e is ProtobufError,
        },
{
    match RpbMapRedResp::decode(part) {
        Ok(m) => {
            let done = match m.done {
                Some(d) => d,
                None => false,
            };
            let data = match m.response {
                Some(d) => d,
                None => Vec::new(),
            };
            Ok((data, done))
        },
        Err(e) => Err(RiakErr::ProtobufError(e)),
    }
}

/// How a frame read for a part of a MapReduce reply comes out: `Some` with
/// the part's done flag where it has the code of such a part and its message
/// decodes, `None` where it fails.
pub open spec fn mapreduce_part_outcome(code: u8, message: Seq<u8>) -> Option<bool> {
    if code != MAP_RED_RESP {
        None
    } else {
        match rpb_map_red_resp_decode(message) {
            Some(m) => Some(bool_or_false(m.done)),
            None => None,
        }
    }
}

/// Handles what was read for a part of a MapReduce reply: the frame's code
/// and message, or the error that reading met. Where the part comes out
/// well, gives its result and records it, with its done flag, in the stream
/// and the connection. Otherwise gives the error (the one that reading met,
/// the server's error for a frame with another code, or the decode error)
/// and leaves both as they were: the job stops with the connection broken.
pub fn mapreduce_part(
    state: &mut StreamState,
    conn: &mut ConnectionState,
    reply: Result<(u8, Vec<u8>), RiakErr>,
) -> (r: Result<Vec<u8>, RiakErr>)
    ensures
        match reply {
            Ok((code, m)) => match mapreduce_part_outcome(code, m@) {
                Some(done) => rpb_map_red_resp_decode(m@) matches Some(msg) && r matches Ok(d) && d@
                    == bytes_or_empty(msg.response) && final(state)@ == (old(state)@.0, done)
                    && final(conn)@ == after_part(old(conn)@, done),
                None => final(state)@ == old(state)@ && final(conn)@ == old(conn)@ && (code
                    != MAP_RED_RESP ==> (r matches Err(RiakErr::ServerError(e)) && e.code == code
                    && e.data@ == utf8_lossy(m@))) && (code == MAP_RED_RESP ==> (r matches Err(
                    RiakErr::ProtobufError(_)))),
            },
            Err(e) => r == Err::<Vec<u8>, RiakErr>(e) && final(state)@ == old(state)@
                && final(conn)@ == old(conn)@,
        },
{
    let (code, m) = match reply {
        Ok(p) => p,
        Err(e) => return Err(e),
    };
    let message = match check_response(code, MAP_RED_RESP, m) {
        Ok(v) => v,
        Err(e) => return Err(e),
    };
    let (data, done) = match mapreduce_batch(message.as_slice()) {
        Ok(p) => p,
        Err(e) => return Err(e),
    };
    state.record(done, conn);
    Ok(data)
}

/// The items of all batches, one batch after the other.
pub open spec fn flatten_batches(s: Seq<Seq<Seq<u8>>>) -> Seq<Seq<u8>>
    decreases s.len(),
{
    if s.len() == 0 {
        Seq::empty()
    } else {
        flatten_batches(s.drop_last()) + s.last()
    }
}

/// The items of all batches, one batch after the other.
pub fn flatten(batches: Vec<Vec<Vec<u8>>>) -> (r: Vec<Vec<u8>>)
    ensures
        bytes_seq_view(r@) == flatten_batches(batches@.map_values(|b: Vec<Vec<u8>>| bytes_seq_view(b@))),
{
    let ghost bv = batches@.map_values(|b: Vec<Vec<u8>>| bytes_seq_view(b@));
    let mut out: Vec<Vec<u8>> = Vec::new();
    for batch in it: batches.into_iter()
        invariant
            it.seq() == batches@,
            bv == batches@.map_values(|b: Vec<Vec<u8>>| bytes_seq_view(b@)),
            bytes_seq_view(out@) == flatten_batches(bv.take(it.index() as int)),
    {
        let ghost k = it.index() as int;
        let ghost before = bytes_seq_view(out@);
        let mut b = batch;
        let ghost bview = bytes_seq_view(b@);
        proof {
            assert(bv.take(k + 1).drop_last() =~= bv.take(k));
            assert(bv[k] == bview);
        }
        out.append(&mut b);
        proof {
            assert(bytes_seq_view(out@) =~= before + bview);
        }
    }
    proof {
        assert(bv.take(bv.len() as int) =~= bv);
    }
    out
}

} // verus!
