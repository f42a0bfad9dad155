//! Values that become byte vectors, and bytes read as text.
use vstd::prelude::*;
use vstd::slice::slice_to_vec;
use vstd::string::StringSliceAdditionalSpecFns;
use crate::wire::bytes_seq_view;
use vstd::utf8::{decode_utf8, encode_utf8, valid_utf8};

verus! {

/// A value that can be turned into a byte vector: a string (its UTF-8
/// bytes), a byte slice, a byte array or a byte vector. Names, keys and values passed to
/// this library are taken as any of these.
pub trait IntoBytes: Sized {
    /// The bytes the value stands for.
    spec fn byte_view(&self) -> Seq<u8>;

    /// The bytes the value stands for, in a vector of their own.
    fn into_bytes(self) -> (r: Vec<u8>)
        ensures
            r@ == self.byte_view(),
    ;
}

impl IntoBytes for Vec<u8> {
    open spec fn byte_view(&self) -> Seq<u8> {
        self@
    }

    fn into_bytes(self) -> (r: Vec<u8>) {
        self
    }
}

impl<'a> IntoBytes for &'a [u8] {
    open spec fn byte_view(&self) -> Seq<u8> {
        self@
    }

    fn into_bytes(self) -> (r: Vec<u8>) {
        slice_to_vec(self)
    }
}

impl<'a, const N: usize> IntoBytes for &'a [u8; N] {
    open spec fn byte_view(&self) -> Seq<u8> {
        self@
    }

    fn into_bytes(self) -> (r: Vec<u8>) {
        slice_to_vec(self.as_slice())
    }
}

impl<const N: usize> IntoBytes for [u8; N] {
    open spec fn byte_view(&self) -> Seq<u8> {
        self@
    }

    fn into_bytes(self) -> (r: Vec<u8>) {
        slice_to_vec(self.as_slice())
    }
}

impl<'a> IntoBytes for &'a str {
    open spec fn byte_view(&self) -> Seq<u8> {
        encode_utf8(self@)
    }

    fn into_bytes(self) -> (r: Vec<u8>) {
        let b = self.as_bytes();
        slice_to_vec(b)
    }
}

impl IntoBytes for String {
    open spec fn byte_view(&self) -> Seq<u8> {
        encode_utf8(self@)
    }

    fn into_bytes(self) -> (r: Vec<u8>) {
        let b = self.as_str().as_bytes();
        slice_to_vec(b)
    }
}

/// The text that `String::from_utf8_lossy` reads from `b`: each run of bytes
/// that is not valid UTF-8 becomes U+FFFD.
pub uninterp spec fn utf8_lossy(b: Seq<u8>) -> Seq<char>;

/// Reads bytes as text with `String::from_utf8_lossy`. Its documentation says
/// that valid UTF-8 is decoded as it stands; what it makes of other bytes is
/// named `utf8_lossy`.
#[verifier::external_body]
pub(crate) fn text_from_bytes(b: &[u8]) -> (s: String)
    ensures
        s@ == utf8_lossy(b@),
        valid_utf8(b@) ==> s@ == decode_utf8(b@),
{
    String::from_utf8_lossy(b).into_owned()
}

/// The content of an optional byte slice.
pub open spec fn opt_slice_view(o: Option<&[u8]>) -> Option<Seq<u8>> {
    match o {
        Some(s) => Some(s@),
        None => None,
    }
}

/// The contents of an optional pair of byte slices.
pub open spec fn opt_slice_pair_view(o: Option<(&[u8], &[u8])>) -> Option<(Seq<u8>, Seq<u8>)> {
    match o {
        Some((a, b)) => Some((a@, b@)),
        None => None,
    }
}

/// Whether two byte slices hold the same bytes.
pub fn bytes_eq(a: &[u8], b: &[u8]) -> (r: bool)
    ensures
        r == (a@ == b@),
{
    if a.len() != b.len() {
        return false;
    }
    let mut i: usize = 0;
    while i < a.len()
        invariant
            a@.len() == b@.len(),
            i <= a@.len(),
            forall|j: int| 0 <= j < i ==> a@[j] == b@[j],
        decreases a@.len() - i,
    {
        if a[i] != b[i] {
            return false;
        }
        i = i + 1;
    }
    proof {
        assert(a@ =~= b@);
    }
    true
}

/// A copy of a byte slice.
pub fn copy_bytes(a: &[u8]) -> (r: Vec<u8>)
    ensures
        r@ == a@,
{
    slice_to_vec(a)
}

/// A copy of a vector of byte vectors.
pub fn copy_bytes_vec(v: &Vec<Vec<u8>>) -> (r: Vec<Vec<u8>>)
    ensures
        bytes_seq_view(r@) == bytes_seq_view(v@),
{
    let mut out: Vec<Vec<u8>> = Vec::new();
    let mut i: usize = 0;
    while i < v.len()
        invariant
            i <= v@.len(),
            bytes_seq_view(out@) == bytes_seq_view(v@).take(i as int),
        decreases v@.len() - i,
    {
        let ghost prev = bytes_seq_view(out@);
        out.push(copy_bytes(v[i].as_slice()));
        proof {
            assert(bytes_seq_view(out@) =~= prev.push(v@[i as int]@));
            assert(bytes_seq_view(v@).take(i + 1) =~= prev.push(v@[i as int]@));
        }
        i = i + 1;
    }
    proof {
        assert(bytes_seq_view(v@).take(i as int) =~= bytes_seq_view(v@));
    }
    out
}

} // verus!
