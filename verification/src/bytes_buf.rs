//! The byte buffers of the `bytes` crate: what they hold, and what their methods do to it.

use bytes::{Buf, Bytes, BytesMut};
use vstd::prelude::*;

verus! {

/// `bytes::Bytes`, an immutable byte string that is cheap to hand on.
#[verifier::external_type_specification]
#[verifier::external_body]
pub struct ExBytes(Bytes);

/// `bytes::BytesMut`, a growable byte string that can be consumed from the front.
#[verifier::external_type_specification]
#[verifier::external_body]
pub struct ExBytesMut(BytesMut);

/// The bytes that a `Bytes` holds.
pub uninterp spec fn bytes_seq(b: Bytes) -> Seq<u8>;

/// The bytes that a `BytesMut` holds; not what it has room for.
pub uninterp spec fn bytes_mut_seq(b: BytesMut) -> Seq<u8>;

/// `Bytes::new` makes an empty `Bytes`.
pub assume_specification[ Bytes::new ]() -> (b: Bytes)
    ensures
        bytes_seq(b) == Seq::<u8>::empty(),
;

/// `Bytes::copy_from_slice` makes a `Bytes` with the contents of the slice.
pub assume_specification[ Bytes::copy_from_slice ](data: &[u8]) -> (b: Bytes)
    ensures
        bytes_seq(b) == data@,
;

/// `Bytes::len` is the number of bytes held.
pub assume_specification[ Bytes::len ](b: &Bytes) -> (n: usize)
    ensures
        n == bytes_seq(*b).len(),
;

/// Calls `Bytes::from` on a `Vec<u8>`: the contents stay the same.
#[verifier::external_body]
pub(crate) fn bytes_from_vec(data: Vec<u8>) -> (b: Bytes)
    ensures
        bytes_seq(b) == data@,
{
    Bytes::from(data)
}

/// Calls `deref` of `Bytes`: the slice shows the contents.
#[verifier::external_body]
pub(crate) fn bytes_as_slice(b: &Bytes) -> (data: &[u8])
    ensures
        data@ == bytes_seq(*b),
{
    &b[..]
}

/// `BytesMut::with_capacity` makes an empty buffer. A capacity above `isize::MAX` panics and
/// is left out.
pub assume_specification[ BytesMut::with_capacity ](capacity: usize) -> (b: BytesMut)
    requires
        capacity <= isize::MAX,
    ensures
        bytes_mut_seq(b) == Seq::<u8>::empty(),
;

/// `BytesMut::len` is the number of bytes held.
pub assume_specification[ BytesMut::len ](b: &BytesMut) -> (n: usize)
    ensures
        n == bytes_mut_seq(*b).len(),
;

/// `BytesMut::is_empty` tells whether no byte is held.
pub assume_specification[ BytesMut::is_empty ](b: &BytesMut) -> (empty: bool)
    ensures
        empty == (bytes_mut_seq(*b).len() == 0),
;

/// `BytesMut::extend_from_slice` appends the slice. A total above `isize::MAX`, for which no
/// memory can be had, panics and is left out.
pub assume_specification[ BytesMut::extend_from_slice ](b: &mut BytesMut, extend: &[u8])
    requires
        bytes_mut_seq(*old(b)).len() + extend@.len() <= isize::MAX,
    ensures
        bytes_mut_seq(*final(b)) == bytes_mut_seq(*old(b)) + extend@,
;

/// `BytesMut::truncate` keeps the first `len` bytes, or all where there are fewer.
pub assume_specification[ BytesMut::truncate ](b: &mut BytesMut, len: usize)
    ensures
        bytes_mut_seq(*final(b)) == if len <= bytes_mut_seq(*old(b)).len() {
            bytes_mut_seq(*old(b)).subrange(0, len as int)
        } else {
            bytes_mut_seq(*old(b))
        },
;

/// `BytesMut::clear` drops every byte.
pub assume_specification[ BytesMut::clear ](b: &mut BytesMut)
    ensures
        bytes_mut_seq(*final(b)) == Seq::<u8>::empty(),
;

/// `BytesMut::freeze` turns the buffer into a `Bytes` with the same contents.
pub assume_specification[ BytesMut::freeze ](b: BytesMut) -> (frozen: Bytes)
    ensures
        bytes_seq(frozen) == bytes_mut_seq(b),
;

/// Calls `Buf::advance` of `BytesMut`: the first `count` bytes are dropped. Advancing past the
/// end panics and is left out.
#[verifier::external_body]
pub(crate) fn bytes_mut_advance(b: &mut BytesMut, count: usize)
    requires
        count <= bytes_mut_seq(*old(b)).len(),
    ensures
        bytes_mut_seq(*final(b)) == bytes_mut_seq(*old(b)).subrange(
            count as int,
            bytes_mut_seq(*old(b)).len() as int,
        ),
{
    b.advance(count);
}

/// Calls `clone` of `BytesMut`: the copy has the same contents.
#[verifier::external_body]
pub(crate) fn bytes_mut_clone(b: &BytesMut) -> (copy: BytesMut)
    ensures
        bytes_mut_seq(copy) == bytes_mut_seq(*b),
{
    b.clone()
}

/// Calls `deref` of `BytesMut`: the slice shows the contents.
#[verifier::external_body]
pub(crate) fn bytes_mut_as_slice(b: &BytesMut) -> (data: &[u8])
    ensures
        data@ == bytes_mut_seq(*b),
{
    &b[..]
}

} // verus!
