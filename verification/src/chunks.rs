//! Sequences of chunks, and the byte stream that they make when they are
//! laid end to end.

use vstd::prelude::*;

verus! {

/// The bytes of `chunks`, laid end to end in their order.
pub open spec fn joined(chunks: Seq<Seq<u8>>) -> Seq<u8>
    decreases chunks.len(),
{
    if chunks.len() == 0 {
        Seq::empty()
    } else {
        joined(chunks.drop_last()) + chunks.last()
    }
}

/// The sum of the lengths of `chunks`.
pub open spec fn total_len(chunks: Seq<Seq<u8>>) -> nat
    decreases chunks.len(),
{
    if chunks.len() == 0 {
        0
    } else {
        total_len(chunks.drop_last()) + chunks.last().len()
    }
}

/// The chunks of `chunks` that hold at least one byte, in their order.
pub open spec fn non_empty(chunks: Seq<Seq<u8>>) -> Seq<Seq<u8>>
    decreases chunks.len(),
{
    if chunks.len() == 0 {
        Seq::empty()
    } else if chunks.last().len() == 0 {
        non_empty(chunks.drop_last())
    } else {
        non_empty(chunks.drop_last()).push(chunks.last())
    }
}

/// The stream is as long as its chunks together.
pub proof fn lemma_joined_len(chunks: Seq<Seq<u8>>)
    ensures
        joined(chunks).len() == total_len(chunks),
    decreases chunks.len(),
{
    if chunks.len() > 0 {
        lemma_joined_len(chunks.drop_last());
    }
}

/// One more chunk adds its bytes at the end of the stream.
pub proof fn lemma_joined_push(chunks: Seq<Seq<u8>>, chunk: Seq<u8>)
    ensures
        joined(chunks.push(chunk)) == joined(chunks) + chunk,
        total_len(chunks.push(chunk)) == total_len(chunks) + chunk.len(),
{
    assert(chunks.push(chunk).drop_last() =~= chunks);
}

/// The stream of two runs of chunks is the stream of the first, then that of
/// the second.
pub proof fn lemma_joined_concat(first: Seq<Seq<u8>>, second: Seq<Seq<u8>>)
    ensures
        joined(first + second) == joined(first) + joined(second),
        total_len(first + second) == total_len(first) + total_len(second),
    decreases second.len(),
{
    if second.len() == 0 {
        assert(first + second =~= first);
        assert(joined(first) + joined(second) =~= joined(first));
    } else {
        lemma_joined_concat(first, second.drop_last());
        assert((first + second).drop_last() =~= first + second.drop_last());
        assert((first + second).last() == second.last());
        assert(joined(first + second) =~= joined(first) + joined(second));
    }
}

/// The chunks before any point of a run are no longer together than the
/// whole run.
pub proof fn lemma_prefix_len(chunks: Seq<Seq<u8>>, k: int)
    requires
        0 <= k <= chunks.len(),
    ensures
        total_len(chunks.take(k)) <= total_len(chunks),
{
    assert(chunks =~= chunks.take(k) + chunks.skip(k));
    lemma_joined_concat(chunks.take(k), chunks.skip(k));
}

/// Leaving out the chunks that hold nothing changes neither the stream nor
/// its length.
pub proof fn lemma_non_empty_joined(chunks: Seq<Seq<u8>>)
    ensures
        joined(non_empty(chunks)) == joined(chunks),
        total_len(non_empty(chunks)) == total_len(chunks),
        forall|i: int| 0 <= i < non_empty(chunks).len() ==> (#[trigger] non_empty(chunks)[i]).len() > 0,
    decreases chunks.len(),
{
    if chunks.len() > 0 {
        lemma_non_empty_joined(chunks.drop_last());
        if chunks.last().len() == 0 {
            assert(joined(chunks) =~= joined(chunks.drop_last()));
        } else {
            lemma_joined_push(non_empty(chunks.drop_last()), chunks.last());
        }
    }
}

} // verus!
