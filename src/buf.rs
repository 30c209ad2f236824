use vstd::prelude::*;
use bytes::BytesMut;

verus! {

#[verifier::external_type_specification]
#[verifier::external_body]
pub struct ExBytesMut(BytesMut);

/// The bytes that a `BytesMut` holds, first to last.
pub uninterp spec fn contents(b: BytesMut) -> Seq<u8>;

/// Relies on `BytesMut::with_capacity`: the new buffer holds no bytes. It
/// allocates through `Vec::with_capacity`, which panics past `isize::MAX`
/// bytes; `requires` leaves that out.
#[verifier::external_body]
pub(crate) fn buf_with_capacity(capacity: usize) -> (r: BytesMut)
    requires
        capacity <= isize::MAX,
    ensures
        contents(r).len() == 0,
{
    BytesMut::with_capacity(capacity)
}

/// Relies on `BufMut::put_slice` for `BytesMut`, which appends `src` after the
/// bytes already held. It grows the buffer, and panics only where the new
/// length would overflow, which `requires` leaves out.
#[verifier::external_body]
pub(crate) fn buf_put_slice(buf: &mut BytesMut, src: &[u8])
    requires
        contents(*old(buf)).len() + src@.len() <= isize::MAX,
    ensures
        contents(*final(buf)) == contents(*old(buf)) + src@,
{
    bytes::BufMut::put_slice(buf, src)
}


} // verus!
