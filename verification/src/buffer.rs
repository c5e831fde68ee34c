//! The growable receive buffer.
//!
//! Its storage is split in two: the valid bytes, which came off the socket
//! and were committed, and behind them the spare room, which a read may write
//! to. Only [`ReceiveBuffer::commit`] moves bytes from the spare room to the
//! valid part, so nothing counts as received before the reader has confirmed
//! how much it wrote.

use crate::storage::{
    bytes_mut_as_mut_slice, bytes_mut_as_slice, bytes_mut_len, bytes_mut_new, bytes_mut_resize,
    bytes_mut_split_to, bytes_of,
};
use bytes::BytesMut;
use vstd::prelude::*;

verus! {

/// The room that is added when the spare room is exhausted: 128 KiB.
pub const GROWTH_INCREMENT: usize = 131072;

/// `count` zero bytes.
pub open spec fn zeros(count: int) -> Seq<u8> {
    Seq::new(count as nat, |i: int| 0u8)
}

/// A byte buffer that is extended with what a socket delivers and shortened
/// from the front as its bytes are consumed.
pub struct ReceiveBuffer {
    storage: BytesMut,
    valid: usize,
}

impl View for ReceiveBuffer {
    type V = Seq<u8>;

    /// The valid bytes.
    closed spec fn view(&self) -> Seq<u8> {
        bytes_of(self.storage).take(self.valid as int)
    }
}

impl ReceiveBuffer {
    /// The valid bytes end within the storage, whose length a `usize` holds.
    pub closed spec fn wf(&self) -> bool {
        self.valid <= bytes_of(self.storage).len() <= usize::MAX
    }

    /// The spare room: what the storage holds behind the valid bytes. A read
    /// writes here; what it holds means nothing until it is committed.
    pub closed spec fn spare(&self) -> Seq<u8> {
        bytes_of(self.storage).skip(self.valid as int)
    }

    /// An empty buffer without spare room.
    pub fn new() -> (buf: ReceiveBuffer)
        ensures
            buf.wf(),
            buf@ == Seq::<u8>::empty(),
            buf.spare() == Seq::<u8>::empty(),
    {
        ReceiveBuffer { storage: bytes_mut_new(), valid: 0 }
    }

    /// The number of valid bytes.
    pub fn len(&self) -> (len: usize)
        requires
            self.wf(),
        ensures
            len == self@.len(),
    {
        self.valid
    }

    /// The number of bytes of spare room.
    pub fn spare_len(&self) -> (len: usize)
        requires
            self.wf(),
        ensures
            len == self.spare().len(),
    {
        let total: usize = bytes_mut_len(&self.storage);
        total - self.valid
    }

    /// The valid bytes.
    pub fn as_slice(&self) -> (bytes: &[u8])
        requires
            self.wf(),
        ensures
            bytes@ == self@,
    {
        let all: &[u8] = bytes_mut_as_slice(&self.storage);
        vstd::slice::slice_subrange(all, 0, self.valid)
    }

    /// Grows the spare room to at least `min_bytes`. The valid bytes stay as
    /// they are, and so does the spare room that was there; what is added is
    /// zeroed.
    pub fn ensure_spare(&mut self, min_bytes: usize)
        requires
            old(self).wf(),
            old(self)@.len() + min_bytes <= isize::MAX,
        ensures
            final(self).wf(),
            final(self)@ == old(self)@,
            final(self).spare().len() >= min_bytes,
            final(self).spare() == if old(self).spare().len() >= min_bytes {
                old(self).spare()
            } else {
                old(self).spare() + zeros(min_bytes - old(self).spare().len())
            },
    {
        let total: usize = bytes_mut_len(&self.storage);
        if total - self.valid < min_bytes {
            bytes_mut_resize(&mut self.storage, self.valid + min_bytes, 0);
            assert(final(self)@ =~= old(self)@);
            assert(self.spare() =~= old(self).spare() + zeros(
                min_bytes - old(self).spare().len(),
            ));
        }
    }

    /// The spare room, to be written to. The valid bytes are out of reach of
    /// the writer.
    pub fn spare_mut(&mut self) -> (room: &mut [u8])
        requires
            old(self).wf(),
        ensures
            room@ == old(self).spare(),
            final(self).wf(),
            final(self)@ == old(self)@,
            final(self).spare() == final(room)@,
            final(self).spare().len() == old(self).spare().len(),
    {
        let all: &mut [u8] = bytes_mut_as_mut_slice(&mut self.storage);
        let (head, room) = all.split_at_mut(self.valid);
        room
    }

    /// Declares the first `n` bytes of the spare room valid. This is the only
    /// way in which the valid part grows.
    pub fn commit(&mut self, n: usize)
        requires
            old(self).wf(),
            n <= old(self).spare().len(),
        ensures
            final(self).wf(),
            final(self)@ == old(self)@ + old(self).spare().take(n as int),
            final(self).spare() == old(self).spare().skip(n as int),
    {
        self.valid = self.valid + n;
        assert(final(self)@ =~= old(self)@ + old(self).spare().take(n as int));
        assert(self.spare() =~= old(self).spare().skip(n as int));
    }

    /// Removes the first `n` valid bytes and returns them; the valid bytes
    /// that remain start at offset 0. No byte is copied, and the spare room
    /// is kept.
    pub fn consume_prefix(&mut self, n: usize) -> (prefix: BytesMut)
        requires
            old(self).wf(),
            n <= old(self)@.len(),
        ensures
            final(self).wf(),
            bytes_of(prefix) == old(self)@.take(n as int),
            final(self)@ == old(self)@.skip(n as int),
            final(self).spare() == old(self).spare(),
    {
        let prefix = bytes_mut_split_to(&mut self.storage, n);
        self.valid = self.valid - n;
        assert(bytes_of(prefix) =~= old(self)@.take(n as int));
        assert(final(self)@ =~= old(self)@.skip(n as int));
        assert(self.spare() =~= old(self).spare());
        prefix
    }
}

} // verus!
