//! One whole cycle of a transfer, from the first read to the last.
//!
//! The transfer machine answers one event at a time. This file follows it
//! through all the reads of one response and states what the cycle hands
//! over in the end: whatever the sizes of the reads, the chunks are the body,
//! whole and in order.

use crate::chunks::{joined, lemma_joined_concat, lemma_joined_push};
use crate::detect::all_zero;
use crate::header::{
    crlf_at, fresh, header_block, is_header_line, is_line_end, last_written, lemma_line_len,
    lemma_scan_block, lemma_scan_split, note_line, scan, HeaderIndex,
};
use crate::transfer::{begin, react, Directive, Event, Outcome, Phase, Policy, TransferView};
use vstd::prelude::*;

verus! {

/// The machine's answer when one read has delivered exactly `data`.
#[verifier::opaque]
pub open spec fn read_event(state: TransferView, data: Seq<u8>) -> (TransferView, Outcome) {
    react(TransferView { spare: data, ..state }, Event::Read(data.len() as usize))
}

/// A transfer with what it has handed over.
pub struct Run {
    /// The state of the transfer.
    pub state: TransferView,
    /// The chunks that were handed over, in their order.
    pub delivered: Seq<Seq<u8>>,
    /// The last directive.
    pub last: Directive,
}

/// The transfer `start` after the reads `reads`, one after the other.
pub open spec fn run_reads(start: TransferView, reads: Seq<Seq<u8>>) -> Run
    decreases reads.len(),
{
    if reads.len() == 0 {
        Run { state: start, delivered: Seq::empty(), last: Directive::Read }
    } else {
        let before = run_reads(start, reads.drop_last());
        let (state, outcome) = read_event(before.state, reads.last());
        Run {
            state,
            delivered: match outcome.chunk {
                Some(chunk) => before.delivered.push(chunk),
                None => before.delivered,
            },
            last: outcome.next,
        }
    }
}

/// The state in which the first read of a cycle finds the transfer: the
/// request is sent, nothing has arrived.
pub open spec fn awaiting_headers(policy: Policy) -> TransferView {
    TransferView { phase: Phase::ReadingHeaders, ..begin(policy) }
}

/// The reads `reads` deliver one well-formed response: the header lines
/// `lines` with the empty line, then `body`, whose length the headers
/// declare. No read is empty, since an empty read means that the peer has
/// closed the connection.
pub open spec fn is_response(lines: Seq<Seq<u8>>, body: Seq<u8>, reads: Seq<Seq<u8>>) -> bool {
    &&& forall|k: int| 0 <= k < lines.len() ==> is_header_line(#[trigger] lines[k])
    &&& joined(reads) == header_block(lines) + body
    &&& joined(reads).len() <= usize::MAX
    &&& last_written(None, lines) == Some(body.len() as usize)
    &&& forall|i: int| 0 <= i < reads.len() ==> (#[trigger] reads[i]).len() > 0
}

/// Of the room that was handed out, only the bytes that the read wrote
/// matter: the answer is the same as if the room had held nothing else, and
/// the rest of the room is kept.
pub proof fn lemma_only_read_bytes_matter(state: TransferView, n: usize)
    requires
        n <= state.spare.len(),
        state.phase == Phase::ReadingHeaders || state.phase == Phase::StreamingBody,
    ensures
        react(state, Event::Read(n)).1 == read_event(state, state.spare.take(n as int)).1,
        react(state, Event::Read(n)).0 == (TransferView {
            spare: state.spare.skip(n as int),
            ..read_event(state, state.spare.take(n as int)).0
        }),
{
    reveal(read_event);
    let data = state.spare.take(n as int);
    let exact = TransferView { spare: data, ..state };
    assert(data.take(n as int) =~= data);
    assert(data.skip(n as int) =~= Seq::<u8>::empty());
    if n > 0 {
        assert(react(state, Event::Read(n)).0 =~= (TransferView {
            spare: state.spare.skip(n as int),
            ..react(exact, Event::Read(n)).0
        }));
    } else {
        assert(state.spare.skip(0) =~= state.spare);
        assert(data =~= Seq::<u8>::empty());
        assert(react(state, Event::Read(n)).0 =~= (TransferView {
            spare: state.spare.skip(n as int),
            ..react(exact, Event::Read(n)).0
        }));
    }
}

/// A read while the headers are read, after which they are still not
/// complete: the bytes are held back, and the next read is asked for.
pub proof fn lemma_read_of_partial_headers(state: TransferView, read: Seq<u8>)
    requires
        state.phase == Phase::ReadingHeaders,
        0 < read.len() <= usize::MAX,
        !scan(state.pending + read, state.index).1.complete,
    ensures
        read_event(state, read) == (
            TransferView {
                pending: scan(state.pending + read, state.index).0,
                index: scan(state.pending + read, state.index).1,
                spare: Seq::empty(),
                ..state
            },
            Outcome { chunk: None, next: Directive::Read },
        ),
{
    reveal(read_event);
    assert(read.take(read.len() as int) =~= read);
    assert(read.skip(read.len() as int) =~= Seq::<u8>::empty());
}

/// The read that completes the headers, which declare `expected` bytes:
/// what follows the empty line is handed over as the first chunk, and the
/// cycle closes if that is the whole body already.
pub proof fn lemma_read_of_last_header(
    state: TransferView,
    read: Seq<u8>,
    rest: Seq<u8>,
    expected: usize,
)
    requires
        state.phase == Phase::ReadingHeaders,
        0 < read.len() <= usize::MAX,
        rest.len() <= usize::MAX,
        scan(state.pending + read, state.index) == (
            rest,
            HeaderIndex { content_length: Some(expected), complete: true },
        ),
    ensures
        read_event(state, read) == (
            TransferView {
                phase: if rest.len() >= expected {
                    Phase::Closing
                } else {
                    Phase::StreamingBody
                },
                pending: Seq::empty(),
                spare: Seq::empty(),
                index: HeaderIndex { content_length: Some(expected), complete: true },
                received: rest.len() as usize,
                expected,
                ..state
            },
            Outcome {
                chunk: if rest.len() > 0 {
                    Some(rest)
                } else {
                    None
                },
                next: if rest.len() >= expected {
                    Directive::Close
                } else {
                    Directive::Read
                },
            },
        ),
{
    reveal(read_event);
    assert(read.take(read.len() as int) =~= read);
    assert(read.skip(read.len() as int) =~= Seq::<u8>::empty());
}

/// A read while the body is streamed: what was read is handed over as one
/// chunk and counted, and the cycle closes when the count reaches the
/// declared length.
pub proof fn lemma_read_of_body(state: TransferView, read: Seq<u8>)
    requires
        state.phase == Phase::StreamingBody,
        0 < read.len(),
        state.received + read.len() <= usize::MAX,
        !(state.policy.zero_chunk_is_fatal && all_zero(read)),
    ensures
        read_event(state, read) == (
            TransferView {
                phase: if state.received + read.len() >= state.expected {
                    Phase::Closing
                } else {
                    Phase::StreamingBody
                },
                spare: Seq::empty(),
                received: (state.received + read.len()) as usize,
                ..state
            },
            Outcome {
                chunk: Some(read),
                next: if state.received + read.len() >= state.expected {
                    Directive::Close
                } else {
                    Directive::Yield
                },
            },
        ),
{
    reveal(read_event);
    assert(read.take(read.len() as int) =~= read);
    assert(read.skip(read.len() as int) =~= Seq::<u8>::empty());
}

/// The scanner does not find the headers complete before the whole block has
/// arrived.
pub proof fn lemma_scan_partial_block(lines: Seq<Seq<u8>>, known: Option<usize>, len: int)
    requires
        forall|k: int| 0 <= k < lines.len() ==> is_header_line(#[trigger] lines[k]),
        0 <= len < header_block(lines).len(),
    ensures
        !scan(
            header_block(lines).take(len),
            HeaderIndex { content_length: known, complete: false },
        ).1.complete,
    decreases lines.len(),
{
    let block = header_block(lines);
    let s = block.take(len);
    let index = HeaderIndex { content_length: known, complete: false };
    if lines.len() == 0 {
        assert forall|j: int| !is_line_end(s, j) by {
            assert(!crlf_at(s, j));
        }
    } else {
        let line = lines.first();
        let tail = lines.drop_first();
        let i = line.len() as int;
        assert(is_header_line(line));
        if len < i + 2 {
            assert forall|j: int| !is_line_end(s, j) by {
                if crlf_at(s, j) {
                    if j + 1 < i {
                        assert(crlf_at(line, j));
                    }
                }
            }
        } else {
            assert(crlf_at(s, i));
            assert forall|j: int| 0 <= j < i implies !crlf_at(s, j) by {
                assert(!crlf_at(line, j));
            }
            lemma_line_len(s, i);
            assert(s.take(i) =~= line);
            assert(s.skip(i + 2) =~= header_block(tail).take(len - i - 2));
            assert forall|k: int| 0 <= k < tail.len() implies is_header_line(
                #[trigger] tail[k],
            ) by {
                assert(tail[k] == lines[k + 1]);
            }
            lemma_scan_partial_block(tail, note_line(known, line), len - i - 2);
        }
    }
}

/// What has arrived after the first `k` reads is the start of the response,
/// and it grows with each read.
pub proof fn lemma_arrived(reads: Seq<Seq<u8>>, k: int)
    requires
        0 <= k < reads.len(),
        reads[k].len() > 0,
    ensures
        joined(reads.take(k + 1)) == joined(reads.take(k)) + reads[k],
        joined(reads) == joined(reads.take(k + 1)) + joined(reads.skip(k + 1)),
        joined(reads.take(k)).len() < joined(reads.take(k + 1)).len() <= joined(reads).len(),
{
    assert(reads.take(k + 1) =~= reads.take(k).push(reads[k]));
    lemma_joined_push(reads.take(k), reads[k]);
    assert(reads =~= reads.take(k + 1) + reads.skip(k + 1));
    lemma_joined_concat(reads.take(k + 1), reads.skip(k + 1));
}

/// Where a cycle stands when the first `k` reads of a response have been
/// answered. While the header block has not arrived whole, the machine reads
/// headers and has handed over nothing; from then on it has handed over
/// exactly the bytes of the body that have arrived; and with the last read
/// it closes the cycle.
pub open spec fn stands(
    policy: Policy,
    lines: Seq<Seq<u8>>,
    body: Seq<u8>,
    reads: Seq<Seq<u8>>,
    k: int,
) -> bool {
    let block = header_block(lines);
    let arrived = joined(reads.take(k));
    let run = run_reads(awaiting_headers(policy), reads.take(k));
    &&& run.state.policy == policy
    &&& if arrived.len() < block.len() {
        &&& run.state.phase == Phase::ReadingHeaders
        &&& (run.state.pending, run.state.index) == scan(arrived, fresh().1)
        &&& !run.state.index.complete
        &&& run.delivered.len() == 0
    } else if k < reads.len() {
        &&& run.state.phase == Phase::StreamingBody
        &&& run.state.expected == body.len()
        &&& run.state.received == arrived.len() - block.len()
        &&& joined(run.delivered) == arrived.skip(block.len() as int)
    } else {
        &&& run.state.phase == Phase::Closing
        &&& run.last == Directive::Close
        &&& run.state.received == body.len()
        &&& joined(run.delivered) == body
    }
}

/// The cycle stands as described after each read.
pub proof fn lemma_stands(
    policy: Policy,
    lines: Seq<Seq<u8>>,
    body: Seq<u8>,
    reads: Seq<Seq<u8>>,
    k: int,
)
    requires
        is_response(lines, body, reads),
        policy.zero_chunk_is_fatal ==> forall|i: int|
            0 <= i < reads.len() ==> !all_zero(#[trigger] reads[i]),
        0 <= k <= reads.len(),
    ensures
        stands(policy, lines, body, reads, k),
    decreases k,
{
    let block = header_block(lines);
    let start = awaiting_headers(policy);
    if k == 0 {
        let none = Seq::<u8>::empty();
        assert(reads.take(0) =~= Seq::<Seq<u8>>::empty());
        assert forall|j: int| !is_line_end(none, j) by {
            assert(!crlf_at(none, j));
        }
        lemma_block_len(lines);
    } else {
        let j = k - 1;
        lemma_stands(policy, lines, body, reads, j);
        lemma_arrived(reads, j);
        let read = reads[j];
        let before = run_reads(start, reads.take(j));
        let was = joined(reads.take(j));
        let now = joined(reads.take(k));
        assert(reads.take(k).drop_last() =~= reads.take(j));
        assert(reads.take(k).last() == read);
        assert(reads.take(reads.len() as int) =~= reads);
        assert(now =~= (block + body).take(now.len() as int));
        if was.len() < block.len() {
            lemma_scan_split(was, fresh().1, read);
            if now.len() < block.len() {
                assert(now =~= block.take(now.len() as int));
                lemma_scan_partial_block(lines, None, now.len() as int);
                lemma_read_of_partial_headers(before.state, read);
            } else {
                let rest = now.skip(block.len() as int);
                assert(now =~= block + rest);
                lemma_scan_block(lines, None, rest);
                assert(rest =~= body.take(now.len() - block.len()));
                if k == reads.len() {
                    assert(rest =~= body);
                }
                lemma_read_of_last_header(before.state, read, rest, body.len() as usize);
                let none = Seq::<Seq<u8>>::empty();
                assert(before.delivered =~= none);
                if rest.len() > 0 {
                    lemma_joined_push(none, rest);
                    assert(joined(none) + rest =~= rest);
                } else {
                    assert(joined(none) =~= rest);
                }
            }
        } else {
            lemma_read_of_body(before.state, read);
            lemma_joined_push(before.delivered, read);
            assert(was.skip(block.len() as int) + read =~= now.skip(block.len() as int));
            if k == reads.len() {
                assert(now.skip(block.len() as int) =~= body);
            }
        }
    }
}

/// A header block is at least its empty line.
pub proof fn lemma_block_len(lines: Seq<Seq<u8>>)
    ensures
        header_block(lines).len() >= 2,
    decreases lines.len(),
{
    if lines.len() > 0 {
        lemma_block_len(lines.drop_first());
    }
}

/// The whole cycle: a response with its headers and a body of the declared
/// length arrives in reads of any sizes. Then the transfer hands over chunks
/// that make exactly the body, counts exactly its bytes, and closes the
/// cycle with the last read. A policy that takes an all-zero chunk for a
/// fault stops the cycle at such a chunk, so the statement leaves those out.
pub proof fn lemma_cycle_delivers_body(
    policy: Policy,
    lines: Seq<Seq<u8>>,
    body: Seq<u8>,
    reads: Seq<Seq<u8>>,
)
    requires
        is_response(lines, body, reads),
        policy.zero_chunk_is_fatal ==> forall|i: int|
            0 <= i < reads.len() ==> !all_zero(#[trigger] reads[i]),
    ensures
        joined(run_reads(awaiting_headers(policy), reads).delivered) == body,
        run_reads(awaiting_headers(policy), reads).state.received == body.len(),
        run_reads(awaiting_headers(policy), reads).state.phase == Phase::Closing,
        run_reads(awaiting_headers(policy), reads).last == Directive::Close,
{
    lemma_stands(policy, lines, body, reads, reads.len() as int);
    lemma_block_len(lines);
    assert(reads.take(reads.len() as int) =~= reads);
}

} // verus!
