//! Piece payloads: reference-counted byte buffers.

use bytes::Bytes;
use vstd::prelude::*;

verus! {

/// `bytes::Bytes`, an immutable buffer whose clones share one allocation.
#[verifier::external_type_specification]
#[verifier::external_body]
pub struct ExBytes(bytes::Bytes);

/// The bytes that a buffer holds.
pub uninterp spec fn content(b: Bytes) -> Seq<u8>;

/// Calls `Bytes::from` on a vector: the buffer holds the vector's bytes.
#[verifier::external_body]
pub(crate) fn bytes_from_vec(v: Vec<u8>) -> (b: Bytes)
    ensures
        content(b) == v@,
{
    Bytes::from(v)
}

/// Calls `Bytes::len`: the number of bytes held.
#[verifier::external_body]
pub(crate) fn bytes_len(b: &Bytes) -> (n: usize)
    ensures
        n == content(*b).len(),
{
    b.len()
}

/// Calls `Bytes::clone`: another handle on the same bytes.
#[verifier::external_body]
pub(crate) fn bytes_clone(b: &Bytes) -> (c: Bytes)
    ensures
        content(c) == content(*b),
{
    b.clone()
}

/// Calls `Bytes::slice` on `begin..end`: the bytes in that range. The call
/// panics on a range that is not inside the buffer.
#[verifier::external_body]
pub(crate) fn bytes_slice(b: &Bytes, begin: usize, end: usize) -> (c: Bytes)
    requires
        begin <= end <= content(*b).len(),
    ensures
        content(c) == content(*b).subrange(begin as int, end as int),
{
    b.slice(begin..end)
}

} // verus!
