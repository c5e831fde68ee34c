//! The transfer loop, as a state machine.
//!
//! One cycle of a transfer goes through five phases: connecting, sending the
//! request, reading the headers, streaming the body, and closing; after that the
//! next cycle connects. The machine owns the receive buffer and decides
//! what is done next. The program that drives it does what it is told
//! (connects, sends, reads into the room that the machine hands out, hands
//! on the chunks) and reports what happened.

use crate::buffer::{zeros, ReceiveBuffer, GROWTH_INCREMENT};
use crate::detect::{all_zero, is_zero_chunk};
use crate::header::{
    crlf_at, has_line, is_line_end, lemma_scan_leaves, lemma_scan_leftover, scan, HeaderIndex,
};
use crate::storage::{bytes_mut_as_slice, bytes_of};
use bytes::BytesMut;
use vstd::prelude::*;

verus! {

/// Where in its cycle a transfer stands.
#[derive(Clone, Copy, Debug, PartialEq, Eq)]
pub enum Phase {
    /// A connection is to be opened.
    Connecting,
    /// The request is to be written and flushed.
    SendingRequest,
    /// The response's headers are read.
    ReadingHeaders,
    /// The body is read, chunk by chunk.
    StreamingBody,
    /// The chunks of this cycle are handed over; the consumer is to finish
    /// before the next cycle starts.
    Closing,
}

/// The two choices that the variants of the harness make differently.
#[derive(Clone, Copy, Debug, PartialEq, Eq)]
pub struct Policy {
    /// A connection that closes before the whole body has arrived is a
    /// fault; otherwise the cycle just ends there.
    pub early_close_is_fatal: bool,
    /// A chunk that a read of the body delivers all zero is a fault, and is
    /// not handed on; otherwise it is handed on like any other chunk. What
    /// arrives in one read with the end of the headers is handed on
    /// unjudged: the consuming side looks at every chunk in any case.
    pub zero_chunk_is_fatal: bool,
}

/// Why a transfer cannot go on.
#[derive(Clone, Copy, Debug, PartialEq, Eq)]
pub enum Fault {
    /// The connection could not be opened.
    ConnectFailed,
    /// The request could not be written.
    SendFailed,
    /// A read failed, other than by finding nothing to read yet.
    ReadFailed,
    /// The connection closed before the headers were complete.
    ClosedInHeaders,
    /// The headers are complete and declare no length.
    NoContentLength,
    /// The connection closed before the whole body had arrived.
    ClosedInBody {
        /// The number of body bytes that had arrived.
        received: usize,
        /// The length that the headers declared.
        expected: usize,
    },
    /// A read of the body delivered a chunk that is all zero.
    ZeroChunk {
        /// The offset in the body at which the chunk starts.
        offset: usize,
        /// The length of the chunk.
        len: usize,
    },
    /// The driver reported what cannot have happened: an event that does not
    /// belong to the phase, or more bytes read than there was room for.
    Misuse,
}

/// What the driver reports.
#[derive(Clone, Copy, Debug, PartialEq, Eq)]
pub enum Event {
    /// The connection is open.
    Connected,
    /// The connection could not be opened.
    ConnectFailed,
    /// The request is written and flushed.
    RequestSent,
    /// The request could not be written.
    SendFailed,
    /// A read put this many bytes at the start of the room that the machine
    /// had handed out. None means that the peer has closed the connection.
    Read(usize),
    /// A read found nothing to read yet.
    WouldBlock,
    /// A read failed.
    ReadFailed,
    /// The consumer has finished with the chunks of this cycle.
    Drained,
}

/// What the driver is to do next.
#[derive(Clone, Copy, Debug, PartialEq, Eq)]
pub enum Directive {
    /// Open a fresh connection.
    Connect,
    /// Write the request and flush.
    SendRequest,
    /// Read once, into the room that the machine hands out.
    Read,
    /// Yield the processor and read once after that.
    Yield,
    /// Tell the consumer that no chunk will follow, and wait until it has
    /// finished.
    Close,
    /// Stop: the transfer has failed.
    Abort(Fault),
}

/// The machine's answer to an event.
pub struct Step {
    /// A chunk of the body, to be handed to the consumer first. It holds at
    /// least one byte.
    pub chunk: Option<BytesMut>,
    /// What to do after that.
    pub next: Directive,
}

/// The machine's answer to an event, with the chunk as its bytes.
pub struct Outcome {
    /// The bytes of the chunk that is handed over.
    pub chunk: Option<Seq<u8>>,
    /// What to do after that.
    pub next: Directive,
}

impl View for Step {
    type V = Outcome;

    open spec fn view(&self) -> Outcome {
        Outcome {
            chunk: match self.chunk {
                Some(chunk) => Some(bytes_of(chunk)),
                None => None,
            },
            next: self.next,
        }
    }
}

/// The state of a transfer.
#[verifier::ext_equal]
pub struct TransferView {
    /// The phase.
    pub phase: Phase,
    /// The policy, which never changes.
    pub policy: Policy,
    /// The bytes that were received and neither scanned as headers nor
    /// handed over as a chunk yet.
    pub pending: Seq<u8>,
    /// The room that the next read writes to.
    pub spare: Seq<u8>,
    /// What is known of the headers.
    pub index: HeaderIndex,
    /// The number of body bytes that were handed over in this cycle.
    pub received: usize,
    /// The length that the headers declared, once they are complete.
    pub expected: usize,
}

impl TransferView {
    /// Bytes are held back only while the headers are read, and then they
    /// make no whole line, which would have been scanned. Before the body is
    /// streamed the headers are not complete, unless they were found to
    /// declare no length. The spare room is one increment at most.
    pub open spec fn valid(self) -> bool {
        &&& self.phase != Phase::ReadingHeaders ==> self.pending.len() == 0
        &&& self.phase == Phase::Connecting || self.phase == Phase::SendingRequest
            ==> !self.index.complete
        &&& self.phase == Phase::ReadingHeaders ==> if self.index.complete {
            self.index.content_length is None
        } else {
            !has_line(self.pending)
        }
        &&& self.spare.len() <= GROWTH_INCREMENT
    }
}

/// The state in which every cycle starts.
pub open spec fn begin(policy: Policy) -> TransferView {
    TransferView {
        phase: Phase::Connecting,
        policy,
        pending: Seq::empty(),
        spare: Seq::empty(),
        index: HeaderIndex { content_length: None, complete: false },
        received: 0,
        expected: 0,
    }
}

/// The answer that hands over no chunk.
pub open spec fn quiet(next: Directive) -> Outcome {
    Outcome { chunk: None, next }
}

/// The room that is handed out for a read: the spare room, filled up with
/// fresh room to one increment where it is less.
pub open spec fn room_for_read(spare: Seq<u8>) -> Seq<u8> {
    if spare.len() >= GROWTH_INCREMENT {
        spare
    } else {
        spare + zeros(GROWTH_INCREMENT - spare.len())
    }
}

/// The answer to a read of `n` bytes while the headers are read. The bytes
/// are committed and scanned. When the empty line is found, the headers must
/// have declared a length; what follows the empty line is the first chunk of
/// the body.
pub open spec fn on_header_read(state: TransferView, n: usize) -> (TransferView, Outcome) {
    if n > state.spare.len() {
        (state, quiet(Directive::Abort(Fault::Misuse)))
    } else if n == 0 {
        (state, quiet(Directive::Abort(Fault::ClosedInHeaders)))
    } else {
        let (left, index) = scan(state.pending + state.spare.take(n as int), state.index);
        let scanned = TransferView {
            pending: left,
            spare: state.spare.skip(n as int),
            index,
            ..state
        };
        if !index.complete {
            (scanned, quiet(Directive::Read))
        } else {
            match index.content_length {
                None => (scanned, quiet(Directive::Abort(Fault::NoContentLength))),
                Some(expected) => {
                    let done = left.len() >= expected;
                    (
                        TransferView {
                            phase: if done {
                                Phase::Closing
                            } else {
                                Phase::StreamingBody
                            },
                            pending: Seq::empty(),
                            received: left.len() as usize,
                            expected,
                            ..scanned
                        },
                        Outcome {
                            chunk: if left.len() > 0 {
                                Some(left)
                            } else {
                                None
                            },
                            next: if done {
                                Directive::Close
                            } else {
                                Directive::Read
                            },
                        },
                    )
                },
            }
        }
    }
}

/// The answer to a read of `n` bytes while the body is streamed. What was
/// read is one chunk. The cycle ends when as many bytes have arrived as the
/// headers declared, or when the peer closes the connection before that.
pub open spec fn on_body_read(state: TransferView, n: usize) -> (TransferView, Outcome) {
    if n > state.spare.len() {
        (state, quiet(Directive::Abort(Fault::Misuse)))
    } else if n == 0 {
        if state.policy.early_close_is_fatal {
            (
                state,
                quiet(
                    Directive::Abort(
                        Fault::ClosedInBody { received: state.received, expected: state.expected },
                    ),
                ),
            )
        } else {
            (TransferView { phase: Phase::Closing, ..state }, quiet(Directive::Close))
        }
    } else {
        let chunk = state.spare.take(n as int);
        let taken = TransferView { spare: state.spare.skip(n as int), ..state };
        if state.policy.zero_chunk_is_fatal && all_zero(chunk) {
            (
                taken,
                quiet(Directive::Abort(Fault::ZeroChunk { offset: state.received, len: n })),
            )
        } else {
            let received = (state.received + n) as usize;
            let done = received >= state.expected;
            (
                TransferView {
                    phase: if done {
                        Phase::Closing
                    } else {
                        Phase::StreamingBody
                    },
                    received,
                    ..taken
                },
                Outcome {
                    chunk: Some(chunk),
                    next: if done {
                        Directive::Close
                    } else {
                        Directive::Yield
                    },
                },
            )
        }
    }
}

/// The machine: the state after `event`, and the answer to it.
pub open spec fn react(state: TransferView, event: Event) -> (TransferView, Outcome) {
    match state.phase {
        Phase::Connecting => match event {
            Event::Connected => (
                TransferView { phase: Phase::SendingRequest, ..state },
                quiet(Directive::SendRequest),
            ),
            Event::ConnectFailed => (state, quiet(Directive::Abort(Fault::ConnectFailed))),
            _ => (state, quiet(Directive::Abort(Fault::Misuse))),
        },
        Phase::SendingRequest => match event {
            Event::RequestSent => (
                TransferView { phase: Phase::ReadingHeaders, ..state },
                quiet(Directive::Read),
            ),
            Event::SendFailed => (state, quiet(Directive::Abort(Fault::SendFailed))),
            _ => (state, quiet(Directive::Abort(Fault::Misuse))),
        },
        Phase::ReadingHeaders => match event {
            Event::Read(n) => on_header_read(state, n),
            Event::WouldBlock => (state, quiet(Directive::Yield)),
            Event::ReadFailed => (state, quiet(Directive::Abort(Fault::ReadFailed))),
            _ => (state, quiet(Directive::Abort(Fault::Misuse))),
        },
        Phase::StreamingBody => match event {
            Event::Read(n) => on_body_read(state, n),
            Event::WouldBlock => (state, quiet(Directive::Yield)),
            Event::ReadFailed => (state, quiet(Directive::Abort(Fault::ReadFailed))),
            _ => (state, quiet(Directive::Abort(Fault::Misuse))),
        },
        Phase::Closing => match event {
            Event::Drained => (begin(state.policy), quiet(Directive::Connect)),
            _ => (state, quiet(Directive::Abort(Fault::Misuse))),
        },
    }
}

/// The machine keeps its state valid, and a chunk that it hands over is one
/// read's worth of bytes: at least one byte, and one increment at most.
pub proof fn lemma_react_valid(state: TransferView, event: Event)
    requires
        state.valid(),
        event matches Event::Read(n) ==> state.received + n <= usize::MAX,
    ensures
        react(state, event).0.valid(),
        react(state, event).0.policy == state.policy,
        react(state, event).1.chunk matches Some(chunk) ==> 0 < chunk.len() <= GROWTH_INCREMENT,
{
    let none = Seq::<u8>::empty();
    assert forall|j: int| !is_line_end(none, j) by {
        assert(!crlf_at(none, j));
    }
    if state.phase != Phase::ReadingHeaders {
        assert(state.pending =~= none);
    }
    if state.phase == Phase::ReadingHeaders {
        if let Event::Read(n) = event {
            if 0 < n <= state.spare.len() {
                let read = state.spare.take(n as int);
                lemma_scan_leaves(state.pending + read, state.index);
                if !state.index.complete && scan(state.pending + read, state.index).1.complete {
                    lemma_scan_leftover(state.pending, state.index, read);
                }
            }
        }
    }
}

/// One transfer after the other over one connection at a time.
pub struct Transfer {
    phase: Phase,
    policy: Policy,
    buffer: ReceiveBuffer,
    index: HeaderIndex,
    received: usize,
    expected: usize,
}

impl View for Transfer {
    type V = TransferView;

    closed spec fn view(&self) -> TransferView {
        TransferView {
            phase: self.phase,
            policy: self.policy,
            pending: self.buffer@,
            spare: self.buffer.spare(),
            index: self.index,
            received: self.received,
            expected: self.expected,
        }
    }
}

impl Transfer {
    /// The receive buffer is in order.
    pub closed spec fn buffer_wf(&self) -> bool {
        self.buffer.wf()
    }

    /// The receive buffer is in order, and the state is valid.
    pub open spec fn wf(&self) -> bool {
        self.buffer_wf() && self@.valid()
    }

    /// A transfer that is about to connect for its first cycle.
    pub fn new(policy: Policy) -> (transfer: Transfer)
        ensures
            transfer.wf(),
            transfer@ == begin(policy),
    {
        let transfer = Transfer {
            phase: Phase::Connecting,
            policy,
            buffer: ReceiveBuffer::new(),
            index: HeaderIndex::new(),
            received: 0,
            expected: 0,
        };
        assert(transfer@ =~= begin(policy));
        transfer
    }

    /// The phase.
    pub fn phase(&self) -> (phase: Phase)
        ensures
            phase == self@.phase,
    {
        self.phase
    }

    /// The policy.
    pub fn policy(&self) -> (policy: Policy)
        ensures
            policy == self@.policy,
    {
        self.policy
    }

    /// What is known of the headers.
    pub fn index(&self) -> (index: HeaderIndex)
        ensures
            index == self@.index,
    {
        self.index
    }

    /// The number of body bytes that were handed over in this cycle.
    pub fn received(&self) -> (received: usize)
        ensures
            received == self@.received,
    {
        self.received
    }

    /// The length that the headers declared, once they are complete.
    pub fn expected(&self) -> (expected: usize)
        ensures
            expected == self@.expected,
    {
        self.expected
    }

    /// The number of bytes that are held back.
    pub fn pending_len(&self) -> (len: usize)
        requires
            self.wf(),
        ensures
            len == self@.pending.len(),
    {
        self.buffer.len()
    }

    /// The room for the next read, which is one increment: where less spare
    /// room is left, the buffer grows first. The driver lets one read write
    /// to the start of the room and reports how many bytes it wrote.
    pub fn read_room(&mut self) -> (room: &mut [u8])
        requires
            old(self).wf(),
            old(self)@.pending.len() + GROWTH_INCREMENT <= isize::MAX,
        ensures
            room@ == room_for_read(old(self)@.spare),
            room@.len() == GROWTH_INCREMENT,
            final(room)@.len() == GROWTH_INCREMENT,
            final(self).wf(),
            final(self)@ == (TransferView { spare: final(room)@, ..old(self)@ }),
    {
        self.buffer.ensure_spare(GROWTH_INCREMENT);
        self.buffer.spare_mut()
    }

    /// Takes `event` and answers with what is to be done next.
    pub fn step(&mut self, event: Event) -> (step: Step)
        requires
            old(self).wf(),
            event matches Event::Read(n) ==> old(self)@.received + n <= usize::MAX,
        ensures
            final(self).wf(),
            (final(self)@, step@) == react(old(self)@, event),
            step@.chunk matches Some(chunk) ==> 0 < chunk.len() <= GROWTH_INCREMENT,
    {
        proof {
            lemma_react_valid(old(self)@, event);
        }
        match self.phase {
            Phase::Connecting => match event {
                Event::Connected => {
                    self.phase = Phase::SendingRequest;
                    Step { chunk: None, next: Directive::SendRequest }
                },
                Event::ConnectFailed => Step {
                    chunk: None,
                    next: Directive::Abort(Fault::ConnectFailed),
                },
                _ => Step { chunk: None, next: Directive::Abort(Fault::Misuse) },
            },
            Phase::SendingRequest => match event {
                Event::RequestSent => {
                    self.phase = Phase::ReadingHeaders;
                    Step { chunk: None, next: Directive::Read }
                },
                Event::SendFailed => Step { chunk: None, next: Directive::Abort(Fault::SendFailed) },
                _ => Step { chunk: None, next: Directive::Abort(Fault::Misuse) },
            },
            Phase::ReadingHeaders => match event {
                Event::Read(n) => self.header_read(n),
                Event::WouldBlock => Step { chunk: None, next: Directive::Yield },
                Event::ReadFailed => Step { chunk: None, next: Directive::Abort(Fault::ReadFailed) },
                _ => Step { chunk: None, next: Directive::Abort(Fault::Misuse) },
            },
            Phase::StreamingBody => match event {
                Event::Read(n) => self.body_read(n),
                Event::WouldBlock => Step { chunk: None, next: Directive::Yield },
                Event::ReadFailed => Step { chunk: None, next: Directive::Abort(Fault::ReadFailed) },
                _ => Step { chunk: None, next: Directive::Abort(Fault::Misuse) },
            },
            Phase::Closing => match event {
                Event::Drained => {
                    self.phase = Phase::Connecting;
                    self.buffer = ReceiveBuffer::new();
                    self.index = HeaderIndex::new();
                    self.received = 0;
                    self.expected = 0;
                    assert(self@ =~= begin(old(self)@.policy));
                    Step { chunk: None, next: Directive::Connect }
                },
                _ => Step { chunk: None, next: Directive::Abort(Fault::Misuse) },
            },
        }
    }

    /// A read of `n` bytes while the headers are read.
    fn header_read(&mut self, n: usize) -> (step: Step)
        requires
            old(self).wf(),
            old(self)@.phase == Phase::ReadingHeaders,
        ensures
            final(self).buffer_wf(),
            (final(self)@, step@) == on_header_read(old(self)@, n),
    {
        if n > self.buffer.spare_len() {
            return Step { chunk: None, next: Directive::Abort(Fault::Misuse) };
        }
        if n == 0 {
            return Step { chunk: None, next: Directive::Abort(Fault::ClosedInHeaders) };
        }
        self.buffer.commit(n);
        self.index.scan(&mut self.buffer);
        if !self.index.complete {
            return Step { chunk: None, next: Directive::Read };
        }
        match self.index.content_length {
            None => Step { chunk: None, next: Directive::Abort(Fault::NoContentLength) },
            Some(expected) => {
                let held: usize = self.buffer.len();
                let chunk: Option<BytesMut> = if held > 0 {
                    Some(self.buffer.consume_prefix(held))
                } else {
                    None
                };
                self.received = held;
                self.expected = expected;
                let next: Directive = if held >= expected {
                    self.phase = Phase::Closing;
                    Directive::Close
                } else {
                    self.phase = Phase::StreamingBody;
                    Directive::Read
                };
                proof {
                    let left = scan(
                        old(self)@.pending + old(self)@.spare.take(n as int),
                        old(self)@.index,
                    ).0;
                    assert(self@.pending =~= Seq::<u8>::empty());
                    if held > 0 {
                        assert(left.take(held as int) =~= left);
                    }
                    assert(self@ =~= on_header_read(old(self)@, n).0);
                }
                Step { chunk, next }
            },
        }
    }

    /// A read of `n` bytes while the body is streamed.
    fn body_read(&mut self, n: usize) -> (step: Step)
        requires
            old(self).wf(),
            old(self)@.phase == Phase::StreamingBody,
            old(self)@.received + n <= usize::MAX,
        ensures
            final(self).buffer_wf(),
            (final(self)@, step@) == on_body_read(old(self)@, n),
    {
        if n > self.buffer.spare_len() {
            return Step { chunk: None, next: Directive::Abort(Fault::Misuse) };
        }
        if n == 0 {
            if self.policy.early_close_is_fatal {
                return Step {
                    chunk: None,
                    next: Directive::Abort(
                        Fault::ClosedInBody { received: self.received, expected: self.expected },
                    ),
                };
            }
            self.phase = Phase::Closing;
            return Step { chunk: None, next: Directive::Close };
        }
        self.buffer.commit(n);
        let chunk: BytesMut = self.buffer.consume_prefix(n);
        proof {
            let read = old(self)@.spare.take(n as int);
            assert(old(self)@.pending + read =~= read);
            assert(read.take(n as int) =~= read);
            assert(self@.pending =~= Seq::<u8>::empty());
        }
        if self.policy.zero_chunk_is_fatal && is_zero_chunk(bytes_mut_as_slice(&chunk)) {
            assert(self@ =~= on_body_read(old(self)@, n).0);
            return Step {
                chunk: None,
                next: Directive::Abort(Fault::ZeroChunk { offset: self.received, len: n }),
            };
        }
        self.received = self.received + n;
        let next: Directive = if self.received >= self.expected {
            self.phase = Phase::Closing;
            Directive::Close
        } else {
            Directive::Yield
        };
        assert(self@ =~= on_body_read(old(self)@, n).0);
        Step { chunk: Some(chunk), next }
    }
}

} // verus!
