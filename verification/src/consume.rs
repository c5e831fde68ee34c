//! The consuming side of a transfer: it takes the chunks as they are handed
//! over, checks each, accumulates them, and fingerprints the whole when the
//! transfer has ended.

use crate::accumulate::{accumulated, Accumulator};
use crate::chunks::total_len;
use crate::detect::{compare_chunk, is_zero_chunk, mismatches, zero_anomaly, Mismatch};
use crate::digest::{digest_chunks, sha256, zero_offsets, Report};
use crate::storage::{bytes_mut_as_slice, bytes_of};
use bytes::BytesMut;
use vstd::prelude::*;

verus! {

/// What the detector found in one chunk as it arrived.
#[derive(Debug, PartialEq, Eq)]
pub struct Findings {
    /// Where the chunk is all zero: the offset in the stream at which it
    /// starts.
    pub zero_chunk: Option<usize>,
    /// The bytes of the chunk that are not what the reference holds, where
    /// there is a reference.
    pub mismatches: Vec<Mismatch>,
}

/// The consuming side of one transfer.
pub struct Consumer {
    accumulator: Accumulator,
    reference: Option<Vec<u8>>,
}

impl Consumer {
    /// The accumulator is in order.
    pub closed spec fn wf(&self) -> bool {
        self.accumulator.wf()
    }

    /// The chunks accumulated so far, in the order in which they arrived.
    pub closed spec fn chunks(&self) -> Seq<Seq<u8>> {
        self.accumulator@
    }

    /// The body that is expected, where one was given.
    pub closed spec fn reference(&self) -> Option<Seq<u8>> {
        match self.reference {
            Some(bytes) => Some(bytes@),
            None => None,
        }
    }

    /// A consumer that has taken nothing. With a `reference`, each chunk is
    /// compared with it.
    pub fn new(reference: Option<Vec<u8>>) -> (consumer: Consumer)
        ensures
            consumer.wf(),
            consumer.chunks() == Seq::<Seq<u8>>::empty(),
            consumer.reference() == match reference {
                Some(bytes) => Some(bytes@),
                None => None,
            },
    {
        Consumer { accumulator: Accumulator::new(), reference }
    }

    /// The number of bytes taken so far: the offset in the stream at which
    /// the next chunk starts.
    pub fn offset(&self) -> (offset: usize)
        requires
            self.wf(),
        ensures
            offset == total_len(self.chunks()),
    {
        self.accumulator.num_bytes()
    }

    /// Takes `chunk`: checks it, then accumulates it. What the checks find
    /// is reported and stops nothing.
    pub fn accept(&mut self, chunk: BytesMut) -> (findings: Findings)
        requires
            old(self).wf(),
            total_len(old(self).chunks()) + bytes_of(chunk).len() <= usize::MAX,
        ensures
            final(self).wf(),
            final(self).reference() == old(self).reference(),
            final(self).chunks() == old(self).chunks() + accumulated(seq![bytes_of(chunk)]),
            total_len(final(self).chunks()) == total_len(old(self).chunks()) + bytes_of(
                chunk,
            ).len(),
            findings.zero_chunk == if zero_anomaly(bytes_of(chunk)) {
                Some(total_len(old(self).chunks()) as usize)
            } else {
                None
            },
            findings.mismatches@ == match old(self).reference() {
                Some(reference) => mismatches(
                    reference,
                    total_len(old(self).chunks()) as int,
                    bytes_of(chunk),
                ),
                None => Seq::empty(),
            },
    {
        let offset: usize = self.accumulator.num_bytes();
        let bytes: &[u8] = bytes_mut_as_slice(&chunk);
        let zero_chunk: Option<usize> = if is_zero_chunk(bytes) {
            Some(offset)
        } else {
            None
        };
        let found: Vec<Mismatch> = match &self.reference {
            Some(reference) => compare_chunk(reference.as_slice(), offset, bytes),
            None => Vec::new(),
        };
        self.accumulator.push(chunk);
        Findings { zero_chunk, mismatches: found }
    }

    /// Takes `chunk` like [`Consumer::accept`], unless the stream would be
    /// longer than a `usize` can count: then nothing is taken, and the chunk
    /// is handed back.
    pub fn try_accept(&mut self, chunk: BytesMut) -> (taken: Result<Findings, BytesMut>)
        requires
            old(self).wf(),
        ensures
            final(self).wf(),
            final(self).reference() == old(self).reference(),
            match taken {
                Ok(findings) => {
                    &&& total_len(old(self).chunks()) + bytes_of(chunk).len() <= usize::MAX
                    &&& final(self).chunks() == old(self).chunks() + accumulated(
                        seq![bytes_of(chunk)],
                    )
                    &&& findings.zero_chunk == if zero_anomaly(bytes_of(chunk)) {
                        Some(total_len(old(self).chunks()) as usize)
                    } else {
                        None
                    }
                    &&& findings.mismatches@ == match old(self).reference() {
                        Some(reference) => mismatches(
                            reference,
                            total_len(old(self).chunks()) as int,
                            bytes_of(chunk),
                        ),
                        None => Seq::empty(),
                    }
                },
                Err(back) => {
                    &&& total_len(old(self).chunks()) + bytes_of(chunk).len() > usize::MAX
                    &&& back == chunk
                    &&& final(self).chunks() == old(self).chunks()
                },
            },
    {
        let offset: usize = self.accumulator.num_bytes();
        let len: usize = crate::storage::bytes_mut_len(&chunk);
        if len > usize::MAX - offset {
            Err(chunk)
        } else {
            Ok(self.accept(chunk))
        }
    }

    /// Ends the transfer: hashes what was accumulated, in its order, and
    /// reports the digest, the number of bytes, and the chunks that are all
    /// zero now that they are hashed.
    pub fn finish(self) -> (report: Report)
        requires
            self.wf(),
        ensures
            report.bytes_read == total_len(self.chunks()),
            report.digest@ == sha256(crate::chunks::joined(self.chunks())),
            report.zero_chunks@ == zero_offsets(self.chunks()),
    {
        digest_chunks(&self.accumulator)
    }
}

} // verus!
