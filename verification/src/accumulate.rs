//! The accumulator: the chunks of one transfer, kept in the order in which
//! they arrived, in a `buf_list::BufList`. A chunk is moved in, never
//! copied.

use crate::chunks::{joined, lemma_joined_push, non_empty, total_len};
use crate::storage::bytes_of;
use buf_list::BufList;
use bytes::BytesMut;
use vstd::prelude::*;

verus! {

/// `buf_list::BufList`, which Verus carries through without looking into it.
#[verifier::external_type_specification]
#[verifier::external_body]
pub struct ExBufList(BufList);

/// The chunks that a `BufList` holds, from the first that was pushed to the
/// last.
pub uninterp spec fn chunks_of(list: BufList) -> Seq<Seq<u8>>;

/// `BufList::new`: a list that holds no chunk. Not proved.
#[verifier::external_body]
pub(crate) fn buf_list_new() -> (list: BufList)
    ensures
        chunks_of(list) == Seq::<Seq<u8>>::empty(),
{
    BufList::new()
}

/// `BufList::push_chunk`: the chunk is added behind those that the list
/// holds, unless it holds no byte: then the list stays as it is. Not proved.
#[verifier::external_body]
pub(crate) fn buf_list_push_chunk(list: &mut BufList, chunk: BytesMut)
    ensures
        chunks_of(*final(list)) == if bytes_of(chunk).len() > 0 {
            chunks_of(*old(list)).push(bytes_of(chunk))
        } else {
            chunks_of(*old(list))
        },
{
    let _ = list.push_chunk(chunk);
}

/// `BufList::num_chunks`: the number of chunks held. Not proved.
#[verifier::external_body]
pub(crate) fn buf_list_num_chunks(list: &BufList) -> (count: usize)
    ensures
        count == chunks_of(*list).len(),
{
    list.num_chunks()
}

/// `BufList::get_chunk`: the bytes of the chunk at `index`, or `None` where
/// the list holds no chunk there. Not proved.
#[verifier::external_body]
pub(crate) fn buf_list_get_chunk(list: &BufList, index: usize) -> (chunk: Option<&[u8]>)
    ensures
        match chunk {
            Some(bytes) => index < chunks_of(*list).len() && bytes@ == chunks_of(*list)[index as int],
            None => index >= chunks_of(*list).len(),
        },
{
    list.get_chunk(index).map(|chunk| &chunk[..])
}

/// What the accumulator holds when the chunks `arrived` were pushed into it,
/// one after the other: those of them that hold at least one byte.
pub open spec fn accumulated(arrived: Seq<Seq<u8>>) -> Seq<Seq<u8>> {
    non_empty(arrived)
}

/// `body`, cut into pieces of the sizes `sizes`, from its end backwards. The
/// sizes are meant to add up to the length of `body`.
pub open spec fn cut(body: Seq<u8>, sizes: Seq<nat>) -> Seq<Seq<u8>>
    decreases sizes.len(),
{
    if sizes.len() == 0 {
        Seq::empty()
    } else {
        let at = body.len() - sizes.last();
        cut(body.take(at), sizes.drop_last()).push(body.skip(at))
    }
}

/// The sum of `sizes`.
pub open spec fn sum(sizes: Seq<nat>) -> nat
    decreases sizes.len(),
{
    if sizes.len() == 0 {
        0
    } else {
        sum(sizes.drop_last()) + sizes.last()
    }
}

/// A body that is cut into reads of any sizes is put together again by
/// laying the pieces end to end.
pub proof fn lemma_cut_joined(body: Seq<u8>, sizes: Seq<nat>)
    requires
        sum(sizes) == body.len(),
    ensures
        joined(cut(body, sizes)) == body,
        total_len(cut(body, sizes)) == sum(sizes),
    decreases sizes.len(),
{
    if sizes.len() == 0 {
        assert(body =~= Seq::<u8>::empty());
    } else {
        let at = body.len() - sizes.last();
        lemma_cut_joined(body.take(at), sizes.drop_last());
        lemma_joined_push(cut(body.take(at), sizes.drop_last()), body.skip(at));
        assert(body.take(at) + body.skip(at) =~= body);
    }
}

/// No data is lost across chunk boundaries: when a body arrives in reads of
/// any sizes that add up to its length, what the accumulator holds, laid end
/// to end, is the body, and its total length is the sum of the sizes.
pub proof fn lemma_no_data_loss(body: Seq<u8>, sizes: Seq<nat>)
    requires
        sum(sizes) == body.len(),
    ensures
        joined(accumulated(cut(body, sizes))) == body,
        total_len(accumulated(cut(body, sizes))) == sum(sizes),
{
    lemma_cut_joined(body, sizes);
    crate::chunks::lemma_non_empty_joined(cut(body, sizes));
}

/// The chunks of one transfer, in the order in which they arrived.
pub struct Accumulator {
    list: BufList,
    total: usize,
}

impl View for Accumulator {
    type V = Seq<Seq<u8>>;

    /// The chunks held, from the first that arrived to the last.
    closed spec fn view(&self) -> Seq<Seq<u8>> {
        chunks_of(self.list)
    }
}

impl Accumulator {
    /// The total that is kept is the sum of the chunks' lengths, and no chunk
    /// that is held is empty.
    pub closed spec fn wf(&self) -> bool {
        &&& self.total == total_len(chunks_of(self.list))
        &&& non_empty(chunks_of(self.list)) == chunks_of(self.list)
    }

    /// The byte stream that the chunks make.
    pub open spec fn bytes(&self) -> Seq<u8> {
        joined(self@)
    }

    /// An accumulator that holds nothing.
    pub fn new() -> (acc: Accumulator)
        ensures
            acc.wf(),
            acc@ == Seq::<Seq<u8>>::empty(),
    {
        Accumulator { list: buf_list_new(), total: 0 }
    }

    /// Adds `chunk` behind the chunks that are held. A chunk that holds no
    /// byte is dropped.
    pub fn push(&mut self, chunk: BytesMut)
        requires
            old(self).wf(),
            total_len(old(self)@) + bytes_of(chunk).len() <= usize::MAX,
        ensures
            final(self).wf(),
            final(self)@ == old(self)@ + accumulated(seq![bytes_of(chunk)]),
            final(self).bytes() == old(self).bytes() + bytes_of(chunk),
            total_len(final(self)@) == total_len(old(self)@) + bytes_of(chunk).len(),
    {
        let len: usize = crate::storage::bytes_mut_len(&chunk);
        proof {
            let one = seq![bytes_of(chunk)];
            assert(one.drop_last() =~= Seq::<Seq<u8>>::empty());
            assert(non_empty(one.drop_last()) =~= Seq::<Seq<u8>>::empty());
            if len > 0 {
                assert(non_empty(one) =~= one);
                assert(old(self)@ + one =~= old(self)@.push(bytes_of(chunk)));
                assert(old(self)@.push(bytes_of(chunk)).drop_last() =~= old(self)@);
                lemma_joined_push(old(self)@, bytes_of(chunk));
            } else {
                assert(old(self)@ + non_empty(one) =~= old(self)@);
                assert(old(self).bytes() + bytes_of(chunk) =~= old(self).bytes());
            }
        }
        buf_list_push_chunk(&mut self.list, chunk);
        self.total = self.total + len;
    }

    /// Adds `chunk` like [`Accumulator::push`], unless the total length
    /// would be more than a `usize` holds: then nothing is added, and the
    /// chunk is handed back.
    pub fn try_push(&mut self, chunk: BytesMut) -> (refused: Result<(), BytesMut>)
        requires
            old(self).wf(),
        ensures
            final(self).wf(),
            match refused {
                Ok(_) => {
                    &&& total_len(old(self)@) + bytes_of(chunk).len() <= usize::MAX
                    &&& final(self)@ == old(self)@ + accumulated(seq![bytes_of(chunk)])
                    &&& final(self).bytes() == old(self).bytes() + bytes_of(chunk)
                },
                Err(back) => {
                    &&& total_len(old(self)@) + bytes_of(chunk).len() > usize::MAX
                    &&& back == chunk
                    &&& final(self)@ == old(self)@
                },
            },
    {
        let len: usize = crate::storage::bytes_mut_len(&chunk);
        if len > usize::MAX - self.total {
            Err(chunk)
        } else {
            self.push(chunk);
            Ok(())
        }
    }

    /// The number of chunks held.
    pub fn num_chunks(&self) -> (count: usize)
        ensures
            count == self@.len(),
    {
        buf_list_num_chunks(&self.list)
    }

    /// The number of bytes held: the sum of the chunks' lengths, which is the
    /// length of the stream.
    pub fn num_bytes(&self) -> (count: usize)
        requires
            self.wf(),
        ensures
            count == total_len(self@),
            count == self.bytes().len(),
    {
        proof {
            crate::chunks::lemma_joined_len(self@);
        }
        self.total
    }

    /// The bytes of the chunk at `index`, counted from the first that
    /// arrived; `None` past the last.
    pub fn chunk(&self, index: usize) -> (chunk: Option<&[u8]>)
        ensures
            match chunk {
                Some(bytes) => index < self@.len() && bytes@ == self@[index as int],
                None => index >= self@.len(),
            },
    {
        buf_list_get_chunk(&self.list, index)
    }
}

} // verus!
