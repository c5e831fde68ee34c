//! The corruption detector.
//!
//! Two checks, each of which can run alone. One compares what was streamed
//! with a reference that is known to be good, byte for byte, and reports
//! every offset at which the two differ. The other flags a chunk whose bytes
//! are all zero: in a body that means something, a read's worth of zeros is
//! hardly ever what the server sent.

use crate::chunks::joined;
use vstd::prelude::*;

verus! {

/// One byte of the stream that is not what the reference holds.
#[derive(Clone, Copy, Debug, PartialEq, Eq)]
pub struct Mismatch {
    /// The offset of the byte in the stream.
    pub offset: usize,
    /// The byte that the reference holds at that offset; `None` where the
    /// stream runs past the end of the reference.
    pub expected: Option<u8>,
    /// The byte that was streamed.
    pub observed: u8,
}

/// The byte that `reference` holds at offset `at`, if it reaches that far.
pub open spec fn expected_at(reference: Seq<u8>, at: int) -> Option<u8> {
    if 0 <= at < reference.len() {
        Some(reference[at])
    } else {
        None
    }
}

/// The byte `observed`, streamed at offset `at`, is not what `reference`
/// holds there.
pub open spec fn differs(reference: Seq<u8>, at: int, observed: u8) -> bool {
    expected_at(reference, at) != Some(observed)
}

/// The report on the byte `observed` at offset `at`.
pub open spec fn mismatch_at(reference: Seq<u8>, at: int, observed: u8) -> Mismatch {
    Mismatch { offset: at as usize, expected: expected_at(reference, at), observed }
}

/// The reports on `chunk`, which starts at offset `offset` of the stream: one
/// for each byte that differs from the reference, in the order of the
/// offsets.
pub open spec fn mismatches(reference: Seq<u8>, offset: int, chunk: Seq<u8>) -> Seq<Mismatch>
    decreases chunk.len(),
{
    if chunk.len() == 0 {
        Seq::empty()
    } else {
        let at = offset + chunk.len() - 1;
        let before = mismatches(reference, offset, chunk.drop_last());
        if differs(reference, at, chunk.last()) {
            before.push(mismatch_at(reference, at, chunk.last()))
        } else {
            before
        }
    }
}

/// The reports on a stream that arrives as `chunks`, each chunk compared at
/// the offset at which it starts.
pub open spec fn stream_mismatches(reference: Seq<u8>, chunks: Seq<Seq<u8>>) -> Seq<Mismatch>
    decreases chunks.len(),
{
    if chunks.len() == 0 {
        Seq::empty()
    } else {
        stream_mismatches(reference, chunks.drop_last()) + mismatches(
            reference,
            joined(chunks.drop_last()).len() as int,
            chunks.last(),
        )
    }
}

/// Every byte of `chunk` is zero.
pub open spec fn all_zero(chunk: Seq<u8>) -> bool {
    forall|i: int| 0 <= i < chunk.len() ==> chunk[i] == 0
}

/// `chunk` is flagged as a read's worth of zeros: it holds at least one byte,
/// and every byte of it is zero.
pub open spec fn zero_anomaly(chunk: Seq<u8>) -> bool {
    chunk.len() > 0 && all_zero(chunk)
}

/// The reports are exactly the offsets at which the chunk differs from the
/// reference: each report is of a byte of the chunk that differs, with the
/// byte expected and the byte observed; each byte that differs has its
/// report; and the reports come in the order of their offsets, none twice.
pub proof fn lemma_mismatches_exact(reference: Seq<u8>, offset: int, chunk: Seq<u8>)
    requires
        0 <= offset,
        offset + chunk.len() <= usize::MAX,
    ensures
        forall|i: int|
            0 <= i < mismatches(reference, offset, chunk).len() ==> {
                let m = #[trigger] mismatches(reference, offset, chunk)[i];
                &&& offset <= m.offset < offset + chunk.len()
                &&& m.observed == chunk[m.offset - offset]
                &&& m.expected == expected_at(reference, m.offset as int)
                &&& differs(reference, m.offset as int, m.observed)
            },
        forall|k: int|
            0 <= k < chunk.len() && differs(reference, offset + k, #[trigger] chunk[k])
                ==> exists|i: int|
                0 <= i < mismatches(reference, offset, chunk).len() && (#[trigger] mismatches(
                    reference,
                    offset,
                    chunk,
                )[i]).offset == offset + k,
        forall|i: int, j: int|
            0 <= i < j < mismatches(reference, offset, chunk).len() ==> (#[trigger] mismatches(
                reference,
                offset,
                chunk,
            )[i]).offset < (#[trigger] mismatches(reference, offset, chunk)[j]).offset,
    decreases chunk.len(),
{
    if chunk.len() > 0 {
        let before_chunk = chunk.drop_last();
        let before = mismatches(reference, offset, before_chunk);
        let all = mismatches(reference, offset, chunk);
        let at = offset + chunk.len() - 1;
        lemma_mismatches_exact(reference, offset, before_chunk);
        assert forall|k: int|
            0 <= k < chunk.len() && differs(
                reference,
                offset + k,
                #[trigger] chunk[k],
            ) implies exists|i: int|
            0 <= i < all.len() && (#[trigger] all[i]).offset == offset + k by {
            if k < chunk.len() - 1 {
                assert(before_chunk[k] == chunk[k]);
                let i = choose|i: int|
                    0 <= i < before.len() && (#[trigger] before[i]).offset == offset + k;
                assert(all[i] == before[i]);
            } else {
                assert(all[all.len() - 1].offset == at);
            }
        }
        assert forall|i: int| 0 <= i < all.len() implies {
            let m = #[trigger] all[i];
            &&& offset <= m.offset < offset + chunk.len()
            &&& m.observed == chunk[m.offset - offset]
            &&& m.expected == expected_at(reference, m.offset as int)
            &&& differs(reference, m.offset as int, m.observed)
        } by {
            if i < before.len() {
                assert(all[i] == before[i]);
                assert(before_chunk[before[i].offset - offset] == chunk[before[i].offset
                    - offset]);
            }
        }
        assert forall|i: int, j: int| 0 <= i < j < all.len() implies (#[trigger] all[i]).offset
            < (#[trigger] all[j]).offset by {
            assert(all[i] == before[i]);
            if j < before.len() {
                assert(all[j] == before[j]);
            }
        }
    }
}

/// A chunk that is what the reference holds at its place gives no report.
pub proof fn lemma_no_false_positive(reference: Seq<u8>, offset: int, chunk: Seq<u8>)
    requires
        0 <= offset,
        offset + chunk.len() <= reference.len(),
        chunk == reference.subrange(offset, offset + chunk.len()),
    ensures
        mismatches(reference, offset, chunk) == Seq::<Mismatch>::empty(),
    decreases chunk.len(),
{
    if chunk.len() > 0 {
        assert(chunk.drop_last() =~= reference.subrange(offset, offset + chunk.len() - 1));
        lemma_no_false_positive(reference, offset, chunk.drop_last());
    }
}

/// Comparing a chunk in two parts, the second at the offset at which it
/// starts, gives the reports on the whole chunk.
pub proof fn lemma_mismatches_concat(
    reference: Seq<u8>,
    offset: int,
    first: Seq<u8>,
    second: Seq<u8>,
)
    ensures
        mismatches(reference, offset, first + second) == mismatches(reference, offset, first)
            + mismatches(reference, offset + first.len(), second),
    decreases second.len(),
{
    if second.len() == 0 {
        assert(first + second =~= first);
        assert(mismatches(reference, offset, first) + Seq::<Mismatch>::empty() =~= mismatches(
            reference,
            offset,
            first,
        ));
    } else {
        lemma_mismatches_concat(reference, offset, first, second.drop_last());
        assert((first + second).drop_last() =~= first + second.drop_last());
        assert(mismatches(reference, offset, first + second) =~= mismatches(
            reference,
            offset,
            first,
        ) + mismatches(reference, offset + first.len(), second));
    }
}

/// However the stream is cut into chunks, the reports on the chunks, taken
/// together, are the reports on the stream as a whole.
pub proof fn lemma_stream_mismatches(reference: Seq<u8>, chunks: Seq<Seq<u8>>)
    ensures
        stream_mismatches(reference, chunks) == mismatches(reference, 0, joined(chunks)),
    decreases chunks.len(),
{
    if chunks.len() > 0 {
        lemma_stream_mismatches(reference, chunks.drop_last());
        lemma_mismatches_concat(reference, 0, joined(chunks.drop_last()), chunks.last());
    }
}

/// Compares `chunk`, which starts at offset `offset` of the stream, with
/// `reference`, and reports every byte that differs.
pub fn compare_chunk(reference: &[u8], offset: usize, chunk: &[u8]) -> (found: Vec<Mismatch>)
    requires
        offset + chunk@.len() <= usize::MAX,
    ensures
        found@ == mismatches(reference@, offset as int, chunk@),
{
    let len: usize = chunk.len();
    let mut found: Vec<Mismatch> = Vec::new();
    let mut k: usize = 0;
    while k < len
        invariant
            k <= len,
            len == chunk@.len(),
            offset + len <= usize::MAX,
            found@ == mismatches(reference@, offset as int, chunk@.take(k as int)),
        decreases len - k,
    {
        let at: usize = offset + k;
        let observed: u8 = chunk[k];
        let expected: Option<u8> = if at < reference.len() {
            Some(reference[at])
        } else {
            None
        };
        assert(chunk@.take(k + 1).drop_last() =~= chunk@.take(k as int));
        let same: bool = match expected {
            Some(byte) => byte == observed,
            None => false,
        };
        if !same {
            found.push(Mismatch { offset: at, expected, observed });
        }
        k = k + 1;
    }
    assert(chunk@.take(len as int) =~= chunk@);
    found
}

/// Whether `chunk` is a read's worth of zeros. A chunk of any length whose
/// bytes are all zero is flagged, one with a byte that is not zero is not;
/// of a chunk that holds nothing there is nothing to flag.
pub fn is_zero_chunk(chunk: &[u8]) -> (flagged: bool)
    ensures
        flagged == zero_anomaly(chunk@),
        chunk@.len() > 0 && (forall|i: int| 0 <= i < chunk@.len() ==> chunk@[i] == 0) ==> flagged,
        (exists|i: int| 0 <= i < chunk@.len() && chunk@[i] != 0) ==> !flagged,
{
    let len: usize = chunk.len();
    if len == 0 {
        return false;
    }
    let mut k: usize = 0;
    while k < len
        invariant
            k <= len,
            len == chunk@.len(),
            forall|i: int| 0 <= i < k ==> chunk@[i] == 0,
        decreases len - k,
    {
        if chunk[k] != 0 {
            return false;
        }
        k = k + 1;
    }
    true
}

} // verus!
