//! The framing of messages on a connection to Riak's Protocol Buffers API,
//! and whether a connection can take a request.
//!
//! A frame is a four-byte big-endian length, then a one-byte message code,
//! then the message; the length counts the code and the message.
//!
//! For more information: https://docs.basho.com/riak/kv/latest/developing/api/protocol-buffers/
use crate::bytes::utf8_lossy;
use crate::errors::{IoErrorKind, RiakErr, ServerError, io_error, io_error_kind};
use vstd::prelude::*;

verus! {

/// The big-endian value of a byte sequence.
pub open spec fn be_value(s: Seq<u8>) -> int
    decreases s.len(),
{
    if s.len() == 0 {
        0
    } else {
        be_value(s.drop_last()) * 256 + s.last()
    }
}

/// The four big-endian bytes of `n`.
pub open spec fn be32_bytes(n: u32) -> Seq<u8> {
    seq![(n / 0x100_0000) as u8, ((n / 0x1_0000) % 256) as u8, ((n / 256) % 256) as u8, (n % 256) as u8]
}

/// The header of a frame whose message has `len` bytes: the length of the
/// code and the message, then the code.
pub open spec fn frame_header_bytes(code: u8, len: nat) -> Seq<u8> {
    be32_bytes((len + 1) as u32) + seq![code]
}

/// The header of a frame whose message has `len` bytes.
pub fn frame_header(code: u8, len: usize) -> (h: Vec<u8>)
    requires
        len < 0xffff_ffff,
    ensures
        h@ == frame_header_bytes(code, len as nat),
{
    let n: u32 = (len as u32) + 1;
    let h = vec![(n / 0x100_0000) as u8, ((n / 0x1_0000) % 256) as u8, ((n / 256) % 256) as u8, (n % 256) as u8, code];
    proof {
        assert(h@ =~= frame_header_bytes(code, len as nat));
    }
    h
}

/// The length that the four bytes of a received header give.
pub fn frame_length(header: &[u8]) -> (n: u32)
    requires
        header@.len() == 4,
    ensures
        n == be_value(header@),
{
    proof {
        reveal_with_fuel(be_value, 5);
        assert(header@.drop_last().drop_last().drop_last().drop_last() =~= Seq::<u8>::empty());
    }
    (header[0] as u32) * 0x100_0000 + (header[1] as u32) * 0x1_0000 + (header[2] as u32) * 256
        + (header[3] as u32)
}

/// The length of the message of a frame whose header gives `n`: `None`
/// where `n` is 0, a frame without even a code.
pub fn message_length(n: u32) -> (r: Option<usize>)
    ensures
        match r {
            Some(len) => n >= 1 && len == n - 1,
            None => n == 0,
        },
{
    if n == 0 {
        None
    } else {
        Some((n - 1) as usize)
    }
}

/// The header of a frame reads back: its first four bytes give the length
/// of the code and the message, and its last byte is the code.
pub proof fn lemma_frame_header_roundtrip(code: u8, len: nat)
    requires
        len < 0xffff_ffff,
    ensures
        be_value(frame_header_bytes(code, len).take(4)) == len + 1,
        frame_header_bytes(code, len)[4] == code,
        frame_header_bytes(code, len).len() == 5,
{
    let h = frame_header_bytes(code, len);
    let n = (len + 1) as u32;
    reveal_with_fuel(be_value, 5);
    assert(h.take(4).drop_last().drop_last().drop_last().drop_last() =~= Seq::<u8>::empty());
    assert(h.take(4).drop_last().drop_last().drop_last() =~= seq![(n / 0x100_0000) as u8]);
    assert(h.take(4).drop_last().drop_last() =~= seq![(n / 0x100_0000) as u8, ((n / 0x1_0000) % 256) as u8]);
    assert(h.take(4).drop_last() =~= seq![(n / 0x100_0000) as u8, ((n / 0x1_0000) % 256) as u8, ((n / 256) % 256) as u8]);
    assert(n == (n / 0x100_0000) * 0x100_0000 + ((n / 0x1_0000) % 256) * 0x1_0000 + ((n / 256) % 256) * 256 + n % 256) by (nonlinear_arith);
}

/// The message of a received frame: the message itself where its code is
/// the one expected, or else the server's error with the frame's code and
/// message.
pub fn check_response(code: u8, expected: u8, message: Vec<u8>) -> (r: Result<Vec<u8>, RiakErr>)
    ensures
        code == expected ==> (r matches Ok(m) && m@ == message@),
        code != expected ==> (r matches Err(RiakErr::ServerError(e)) && e.code == code && e.data@
            == utf8_lossy(message@)),
{
    if code != expected {
        let err = ServerError::new(code, message.as_slice());
        return Err(RiakErr::ServerError(err));
    }
    Ok(message)
}

/// Whether a connection can take a request. A connection is broken from
/// the moment a request is sent until its whole reply has been read: a
/// request or stream that is dropped half way leaves unread data behind,
/// and the connection must be made anew before it is used again.
#[derive(Clone, Copy, Debug)]
pub struct ConnectionState {
    broken: bool,
}

/// Whether a request can be sent on a connection that is `broken` or not.
pub open spec fn send_accepted(broken: bool) -> bool {
    !broken
}

/// Whether a connection is broken after a request was offered to it: a
/// refused request leaves a broken connection broken, and a sent one makes
/// it broken until its reply has been read.
pub open spec fn after_send(broken: bool) -> bool {
    true
}

/// Whether a connection is broken after the reply to a request was read,
/// well (`ok`) or not: a reply read in full leaves it usable, and a failed
/// one leaves it as it was.
pub open spec fn after_reply(broken: bool, ok: bool) -> bool {
    if ok {
        false
    } else {
        broken
    }
}

/// Whether a connection is broken after a part of a streamed reply was
/// read: the last part leaves it usable, the others leave it as it was.
pub open spec fn after_part(broken: bool, done: bool) -> bool {
    if done {
        false
    } else {
        broken
    }
}

/// A whole exchange, on a connection that was `broken` or not, whose reply
/// was read well (`reply_ok`) or not: whether it succeeded, and whether the
/// connection is broken afterwards.
pub open spec fn exchange_outcome(broken: bool, reply_ok: bool) -> (bool, bool) {
    if send_accepted(broken) {
        (reply_ok, after_reply(after_send(broken), reply_ok))
    } else {
        (false, after_send(broken))
    }
}

/// After a whole exchange the connection is usable exactly where the
/// exchange succeeded; on a broken connection it fails, and the connection
/// stays broken.
pub proof fn lemma_exchange(broken: bool, reply_ok: bool)
    ensures
        exchange_outcome(broken, reply_ok).0 <==> !exchange_outcome(broken, reply_ok).1,
        broken ==> !exchange_outcome(broken, reply_ok).0 && exchange_outcome(broken, reply_ok).1,
{
}

impl View for ConnectionState {
    type V = bool;

    closed spec fn view(&self) -> bool {
        self.broken
    }
}

impl ConnectionState {
    /// The state of a new connection: not broken.
    pub fn new() -> (r: ConnectionState)
        ensures
            !r@,
    {
        ConnectionState { broken: false }
    }

    /// Whether the connection holds unread reply data.
    pub fn is_broken(&self) -> (r: bool)
        ensures
            r == self@,
    {
        self.broken
    }

    /// Called before a request is sent: refused on a broken connection,
    /// which stays broken; otherwise the connection counts as broken until
    /// the reply has been read.
    pub fn begin_send(&mut self) -> (r: Result<(), RiakErr>)
        ensures
            old(self)@ ==> (r matches Err(RiakErr::IoError(e)) && io_error_kind(e)
                == IoErrorKind::BrokenPipe),
            !old(self)@ ==> r is Ok,
            r is Ok <==> send_accepted(old(self)@),
            final(self)@ == after_send(old(self)@),
    {
        if self.broken {
            return Err(
                RiakErr::IoError(
                    io_error(
                        IoErrorKind::BrokenPipe,
                        "connection has unread response data; reconnect required",
                    ),
                ),
            );
        }
        self.broken = true;
        Ok(())
    }

    /// Called with what was read for the reply of a request: the frame's
    /// code and message, or the error that reading met. Gives the message
    /// where its code is the one expected, or else the error; the connection
    /// is usable again exactly where the reply was read well.
    pub fn complete_exchange(
        &mut self,
        reply: Result<(u8, Vec<u8>), RiakErr>,
        expected: u8,
    ) -> (r: Result<Vec<u8>, RiakErr>)
        ensures
            match reply {
                Ok((code, m)) => (code == expected ==> (r matches Ok(v) && v@ == m@)) && (code
                    != expected ==> (r matches Err(RiakErr::ServerError(e)) && e.code == code
                    && e.data@ == utf8_lossy(m@))),
                Err(e) => r == Err::<Vec<u8>, RiakErr>(e),
            },
            final(self)@ == after_reply(old(self)@, r is Ok),
    {
        match reply {
            Ok((code, m)) => {
                let r = check_response(code, expected, m);
                if r.is_ok() {
                    self.broken = false;
                }
                r
            },
            Err(e) => Err(e),
        }
    }

    /// Called when the last part of a streamed reply has been read.
    pub fn mark_stream_done(&mut self)
        ensures
            !final(self)@,
    {
        self.broken = false;
    }

    /// Called when the connection has been made anew.
    pub fn reconnected(&mut self)
        ensures
            !final(self)@,
    {
        self.broken = false;
    }
}

} // verus!
