//! The byte buffer of the `bytes` crate, as plain memory.
use bytes::BytesMut;
use vstd::prelude::*;

verus! {

#[verifier::external_type_specification]
#[verifier::external_body]
pub struct ExBytesMut(BytesMut);

/// The bytes that a `BytesMut` holds, in order.
pub uninterp spec fn bytes_view(b: BytesMut) -> Seq<u8>;

/// `BytesMut::len`: the number of bytes the buffer holds.
#[verifier::external_body]
pub(crate) fn bytes_len(b: &BytesMut) -> (n: usize)
    ensures
        n == bytes_view(*b).len(),
{
    b.len()
}

/// Reads byte `i` through `BytesMut`'s `Deref` to `[u8]`; the contract claims
/// that this gives the `i`-th byte held, for every `i` below the length.
#[verifier::external_body]
pub(crate) fn bytes_get(b: &BytesMut, i: usize) -> (v: u8)
    requires
        i < bytes_view(*b).len(),
    ensures
        v == bytes_view(*b)[i as int],
{
    b[i]
}

/// Writes byte `i` through `BytesMut`'s `DerefMut` to `[u8]`; the contract
/// claims that exactly the `i`-th byte changes, to `v`, and the length stays.
#[verifier::external_body]
pub(crate) fn bytes_set(b: &mut BytesMut, i: usize, v: u8)
    requires
        i < bytes_view(*old(b)).len(),
    ensures
        bytes_view(*final(b)) == bytes_view(*old(b)).update(i as int, v),
{
    b[i] = v;
}

} // verus!
