//! The digest engine: SHA-256 over the chunks of one transfer, folded in one
//! after the other in the order in which they were accumulated.
//!
//! The hash itself is computed by `sha2`. This library does not say what
//! SHA-256 is: [`sha256`] names the digest of a message, and the contracts
//! say of which message a digest is.

use crate::accumulate::Accumulator;
use crate::chunks::{joined, lemma_joined_len, lemma_joined_push, lemma_prefix_len, total_len};
use crate::detect::{is_zero_chunk, zero_anomaly};
use vstd::prelude::*;

verus! {

/// A running SHA-256 state of `sha2`. Verus does not look into it.
#[verifier::external_body]
pub struct Hasher {
    inner: sha2::Sha256,
}

/// The message that a hasher has taken in so far: the bytes of all its
/// updates, in their order.
pub uninterp spec fn absorbed(hasher: Hasher) -> Seq<u8>;

/// The SHA-256 digest of `message`, as `sha2` computes it.
pub uninterp spec fn sha256(message: Seq<u8>) -> Seq<u8>;

/// `Sha256::default`: a hasher that has taken in nothing. Not proved.
#[verifier::external_body]
pub(crate) fn hasher_new() -> (hasher: Hasher)
    ensures
        absorbed(hasher) == Seq::<u8>::empty(),
{
    Hasher { inner: sha2::Sha256::default() }
}

/// `Digest::update`: the hasher takes in `data` behind what it has taken in
/// already. Not proved.
#[verifier::external_body]
pub(crate) fn hasher_update(hasher: &mut Hasher, data: &[u8])
    ensures
        absorbed(*final(hasher)) == absorbed(*old(hasher)) + data@,
{
    sha2::Digest::update(&mut hasher.inner, data)
}

/// `Digest::finalize`: the digest of the message that the hasher has taken
/// in. Not proved.
#[verifier::external_body]
pub(crate) fn hasher_finalize(hasher: Hasher) -> (digest: [u8; 32])
    ensures
        digest@ == sha256(absorbed(hasher)),
{
    sha2::Digest::finalize(hasher.inner).into()
}

/// The fingerprint of a byte stream.
#[derive(Clone, Copy, Debug, PartialEq, Eq)]
pub struct Digest {
    /// The SHA-256 digest of the stream.
    pub bytes: [u8; 32],
    /// The length of the stream in bytes.
    pub length: usize,
}

/// What is reported at the end of one transfer.
#[derive(Debug, PartialEq, Eq)]
pub struct Report {
    /// The number of body bytes that were read.
    pub bytes_read: usize,
    /// The SHA-256 digest of the body.
    pub digest: [u8; 32],
    /// The offsets at which the chunks start that were all zero when they
    /// were hashed.
    pub zero_chunks: Vec<usize>,
}

/// The offsets at which those of `chunks` start that are flagged as all
/// zero, in the order of the chunks.
pub open spec fn zero_offsets(chunks: Seq<Seq<u8>>) -> Seq<usize>
    decreases chunks.len(),
{
    if chunks.len() == 0 {
        Seq::empty()
    } else if zero_anomaly(chunks.last()) {
        zero_offsets(chunks.drop_last()).push(total_len(chunks.drop_last()) as usize)
    } else {
        zero_offsets(chunks.drop_last())
    }
}

/// The digest does not depend on how the stream was cut into chunks: chunks
/// that make the same stream give the same digest, and so the chunks of a
/// stream give the digest of the stream in one piece.
pub proof fn lemma_digest_of_any_split(first: Seq<Seq<u8>>, second: Seq<Seq<u8>>)
    requires
        joined(first) == joined(second),
    ensures
        sha256(joined(first)) == sha256(joined(second)),
        sha256(joined(first)) == sha256(joined(seq![joined(first)])),
{
    let none = Seq::<Seq<u8>>::empty();
    lemma_joined_push(none, joined(first));
    assert(none.push(joined(first)) =~= seq![joined(first)]);
    assert(joined(none) + joined(first) =~= joined(first));
}

/// The lower-case hexadecimal digit of the value `nibble`, which is below
/// 16.
pub open spec fn hex_digit(nibble: u8) -> u8 {
    if nibble < 10 {
        (48 + nibble) as u8
    } else {
        (87 + nibble) as u8
    }
}

/// `bytes` in lower-case hexadecimal, two ASCII digits for each byte, the
/// high half first.
pub open spec fn hex_of(bytes: Seq<u8>) -> Seq<u8>
    decreases bytes.len(),
{
    if bytes.len() == 0 {
        Seq::empty()
    } else {
        hex_of(bytes.drop_last()).push(hex_digit(bytes.last() / 16)).push(
            hex_digit(bytes.last() % 16),
        )
    }
}

/// Writes `bytes`, such as a digest, in lower-case hexadecimal.
pub fn hex_lower(bytes: &[u8]) -> (text: Vec<u8>)
    ensures
        text@ == hex_of(bytes@),
        text@.len() == 2 * bytes@.len(),
{
    let len: usize = bytes.len();
    let mut text: Vec<u8> = Vec::new();
    let mut k: usize = 0;
    while k < len
        invariant
            k <= len,
            len == bytes@.len(),
            text@ == hex_of(bytes@.take(k as int)),
            text@.len() == 2 * k,
        decreases len - k,
    {
        let byte: u8 = bytes[k];
        let high: u8 = byte / 16;
        let low: u8 = byte % 16;
        assert(bytes@.take(k + 1).drop_last() =~= bytes@.take(k as int));
        text.push(if high < 10 {
            48 + high
        } else {
            87 + high
        });
        text.push(if low < 10 {
            48 + low
        } else {
            87 + low
        });
        k = k + 1;
    }
    assert(bytes@.take(len as int) =~= bytes@);
    text
}

/// The digest engine.
pub struct DigestEngine {
    hasher: Hasher,
    count: usize,
}

impl View for DigestEngine {
    type V = Seq<u8>;

    /// The stream that was folded in so far.
    closed spec fn view(&self) -> Seq<u8> {
        absorbed(self.hasher)
    }
}

impl DigestEngine {
    /// The count that is kept is the length of the stream.
    pub closed spec fn wf(&self) -> bool {
        self.count == absorbed(self.hasher).len()
    }

    /// An engine that has folded in nothing.
    pub fn new() -> (engine: DigestEngine)
        ensures
            engine.wf(),
            engine@ == Seq::<u8>::empty(),
    {
        DigestEngine { hasher: hasher_new(), count: 0 }
    }

    /// Folds in `chunk` behind what was folded in before.
    pub fn update(&mut self, chunk: &[u8])
        requires
            old(self).wf(),
            old(self)@.len() + chunk@.len() <= usize::MAX,
        ensures
            final(self).wf(),
            final(self)@ == old(self)@ + chunk@,
    {
        hasher_update(&mut self.hasher, chunk);
        self.count = self.count + chunk.len();
    }

    /// The number of bytes folded in so far.
    pub fn count(&self) -> (count: usize)
        requires
            self.wf(),
        ensures
            count == self@.len(),
    {
        self.count
    }

    /// Ends the stream: its digest and its length.
    pub fn finish(self) -> (digest: Digest)
        requires
            self.wf(),
        ensures
            digest.bytes@ == sha256(self@),
            digest.length == self@.len(),
    {
        let length: usize = self.count;
        Digest { bytes: hasher_finalize(self.hasher), length }
    }
}

/// Hashes what `accumulator` holds, chunk after chunk in the order in which
/// the chunks arrived, and looks at each chunk once more as it is hashed: a
/// chunk that is all zero by then is noted with the offset at which it
/// starts.
pub fn digest_chunks(accumulator: &Accumulator) -> (report: Report)
    requires
        accumulator.wf(),
    ensures
        report.bytes_read == total_len(accumulator@),
        report.bytes_read == accumulator.bytes().len(),
        report.digest@ == sha256(accumulator.bytes()),
        report.zero_chunks@ == zero_offsets(accumulator@),
{
    let count: usize = accumulator.num_chunks();
    let total: usize = accumulator.num_bytes();
    let mut engine = DigestEngine::new();
    let mut zero_chunks: Vec<usize> = Vec::new();
    let mut k: usize = 0;
    while k < count
        invariant
            k <= count,
            count == accumulator@.len(),
            total == total_len(accumulator@),
            engine.wf(),
            engine@ == joined(accumulator@.take(k as int)),
            zero_chunks@ == zero_offsets(accumulator@.take(k as int)),
        decreases count - k,
    {
        let ghost before = accumulator@.take(k as int);
        let ghost now = accumulator@.take(k + 1);
        proof {
            assert(now.drop_last() =~= before);
            assert(now =~= before.push(accumulator@[k as int]));
            lemma_prefix_len(accumulator@, k + 1);
            lemma_joined_push(before, accumulator@[k as int]);
            lemma_joined_len(before);
        }
        match accumulator.chunk(k) {
            Some(chunk) => {
                if is_zero_chunk(chunk) {
                    zero_chunks.push(engine.count());
                }
                engine.update(chunk);
            },
            None => {},
        }
        k = k + 1;
    }
    proof {
        assert(accumulator@.take(count as int) =~= accumulator@);
        lemma_joined_len(accumulator@);
    }
    let digest = engine.finish();
    Report { bytes_read: digest.length, digest: digest.bytes, zero_chunks }
}

} // verus!
