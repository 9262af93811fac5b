//! The byte buffer of the `bytes` crate, as the codec's public functions see it.

use bytes::BytesMut;
use vstd::prelude::*;

verus! {

#[verifier::external_type_specification]
#[verifier::external_body]
pub struct ExBytesMut(BytesMut);

/// The bytes that a buffer holds, front first.
pub uninterp spec fn buf_contents(b: BytesMut) -> Seq<u8>;

/// Relies on `BytesMut::extend_from_slice`: the slice is appended at the back.
pub assume_specification[ BytesMut::extend_from_slice ](b: &mut BytesMut, extend: &[u8])
    ensures
        buf_contents(*final(b)) == buf_contents(*old(b)) + extend@,
;

/// Relies on `BytesMut::split_to`: the first `at` bytes move to the result and
/// the rest stay; it panics when `at` exceeds the length.
pub assume_specification[ BytesMut::split_to ](b: &mut BytesMut, at: usize) -> (r: BytesMut)
    requires
        at <= buf_contents(*old(b)).len(),
    ensures
        buf_contents(r) == buf_contents(*old(b)).subrange(0, at as int),
        buf_contents(*final(b)) == buf_contents(*old(b)).subrange(
            at as int,
            buf_contents(*old(b)).len() as int,
        ),
;

/// Relies on `BytesMut`'s `AsRef<[u8]>`: a view of the bytes held.
#[verifier::external_body]
pub(crate) fn buf_bytes(b: &BytesMut) -> (r: &[u8])
    ensures
        r@ == buf_contents(*b),
{
    b.as_ref()
}

} // verus!
