//! The byte storage that the receive buffer and the chunks are made of:
//! `bytes::BytesMut`, seen through a handful of its methods.
//!
//! Nothing in this file is proved. Each function states what the method it
//! calls is documented to do, over [`bytes_of`], the bytes that a `BytesMut`
//! holds.

use bytes::BytesMut;
use vstd::prelude::*;

verus! {

/// `bytes::BytesMut`, which Verus carries through without looking into it.
#[verifier::external_type_specification]
#[verifier::external_body]
pub struct ExBytesMut(BytesMut);

/// The bytes that a `BytesMut` holds, from its first to its last: what its
/// dereference to a slice shows.
pub uninterp spec fn bytes_of(buf: BytesMut) -> Seq<u8>;

/// `BytesMut::new`: a buffer that holds no bytes.
#[verifier::external_body]
pub(crate) fn bytes_mut_new() -> (buf: BytesMut)
    ensures
        bytes_of(buf) == Seq::<u8>::empty(),
{
    BytesMut::new()
}

/// `BytesMut::len`: the number of bytes held.
#[verifier::external_body]
pub(crate) fn bytes_mut_len(buf: &BytesMut) -> (len: usize)
    ensures
        len == bytes_of(*buf).len(),
{
    buf.len()
}

/// `BytesMut::split_to`: afterwards the buffer holds the bytes from `at` on,
/// and the returned buffer holds the bytes before `at`. The method panics
/// when `at` is past the end, which `requires` leaves out.
#[verifier::external_body]
pub(crate) fn bytes_mut_split_to(buf: &mut BytesMut, at: usize) -> (front: BytesMut)
    requires
        at <= bytes_of(*old(buf)).len(),
    ensures
        bytes_of(front) == bytes_of(*old(buf)).take(at as int),
        bytes_of(*final(buf)) == bytes_of(*old(buf)).skip(at as int),
{
    buf.split_to(at)
}

/// `BytesMut::resize`: the buffer is cut to `new_len` bytes where it held
/// more, and where it held fewer it is extended to `new_len` bytes, each new
/// byte being `value`. The method panics when the capacity it needs is more
/// than the machine can address; `requires` keeps the length within what any
/// allocation may span.
#[verifier::external_body]
pub(crate) fn bytes_mut_resize(buf: &mut BytesMut, new_len: usize, value: u8)
    requires
        new_len <= isize::MAX,
    ensures
        bytes_of(*final(buf)) == if new_len <= bytes_of(*old(buf)).len() {
            bytes_of(*old(buf)).take(new_len as int)
        } else {
            bytes_of(*old(buf)) + Seq::new(
                (new_len - bytes_of(*old(buf)).len()) as nat,
                |i: int| value,
            )
        },
{
    buf.resize(new_len, value)
}

/// `Deref::deref` of `BytesMut`: the bytes held, as a slice.
#[verifier::external_body]
pub(crate) fn bytes_mut_as_slice(buf: &BytesMut) -> (bytes: &[u8])
    ensures
        bytes@ == bytes_of(*buf),
{
    &**buf
}

/// `DerefMut::deref_mut` of `BytesMut`: the bytes held, as a slice that can
/// be written to. What is written is what the buffer holds afterwards; its
/// length cannot change.
#[verifier::external_body]
pub(crate) fn bytes_mut_as_mut_slice(buf: &mut BytesMut) -> (bytes: &mut [u8])
    ensures
        bytes@ == bytes_of(*old(buf)),
        final(bytes)@ == bytes_of(*final(buf)),
        bytes_of(*final(buf)).len() == bytes_of(*old(buf)).len(),
{
    &mut **buf
}

} // verus!
