//! Received datagrams, as the `bytes` crate holds them.
use bytes::BytesMut;
use vstd::prelude::*;

verus! {

/// A growable byte buffer.
#[verifier::external_type_specification]
#[verifier::external_body]
pub struct ExBytesMut(bytes::BytesMut);

/// The bytes that a buffer holds, first to last.
pub uninterp spec fn buffered(buf: BytesMut) -> Seq<u8>;

/// `bytes::BytesMut::len`: the number of bytes that the buffer holds.
pub assume_specification[ bytes::BytesMut::len ](buf: &BytesMut) -> (len: usize)
    ensures
        len == buffered(*buf).len(),
;

/// Borrows the bytes of a buffer through `<bytes::BytesMut as Deref>::deref`: all
/// of them, in order.
#[verifier::external_body]
pub(crate) fn buffered_bytes(buf: &BytesMut) -> (contents: &[u8])
    ensures
        contents@ == buffered(*buf),
{
    std::ops::Deref::deref(buf)
}

} // verus!
