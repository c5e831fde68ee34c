//! The chunk channel: the hand-off of chunks from the side that reads the
//! socket to the side that checks and accumulates them.
//!
//! The channel is a queue without a bound, so that sending never holds the
//! reader back; the price, that the queue grows for as long as the consumer
//! stalls, is accepted. Chunks leave it in the order in which they entered.
//! Closing it tells the consumer that no chunk will follow those that wait.

use crate::storage::bytes_of;
use bytes::BytesMut;
use std::collections::VecDeque;
use vstd::prelude::*;

verus! {

/// The channel as its two sides see it.
pub struct ChannelView {
    /// The chunks that wait, the one that was sent first at the front.
    pub queue: Seq<Seq<u8>>,
    /// The sending side has closed the channel.
    pub closed: bool,
}

/// What a receive finds.
pub enum Received {
    /// The chunk that waited longest.
    Chunk(BytesMut),
    /// No chunk waits, but more may come.
    Empty,
    /// No chunk waits and none will come.
    Closed,
}

/// What a receive finds, as the bytes that it hands over.
pub enum Delivery {
    /// A chunk with these bytes.
    Chunk(Seq<u8>),
    /// No chunk waits, but more may come.
    Empty,
    /// No chunk waits and none will come.
    Closed,
}

impl View for Received {
    type V = Delivery;

    open spec fn view(&self) -> Delivery {
        match *self {
            Received::Chunk(chunk) => Delivery::Chunk(bytes_of(chunk)),
            Received::Empty => Delivery::Empty,
            Received::Closed => Delivery::Closed,
        }
    }
}

/// The channel after `chunk` was sent into it: the chunk waits behind the
/// others, unless the channel is closed, which takes nothing more.
pub open spec fn after_send(channel: ChannelView, chunk: Seq<u8>) -> ChannelView {
    if channel.closed {
        channel
    } else {
        ChannelView { queue: channel.queue.push(chunk), closed: false }
    }
}

/// The channel after it was closed: what waits still waits.
pub open spec fn after_close(channel: ChannelView) -> ChannelView {
    ChannelView { queue: channel.queue, closed: true }
}

/// What a receive finds in `channel`. Chunks that wait are handed over also
/// when the channel is closed: it is drained before it reports the end.
pub open spec fn delivery(channel: ChannelView) -> Delivery {
    if channel.queue.len() > 0 {
        Delivery::Chunk(channel.queue.first())
    } else if channel.closed {
        Delivery::Closed
    } else {
        Delivery::Empty
    }
}

/// The channel after a receive.
pub open spec fn after_recv(channel: ChannelView) -> ChannelView {
    if channel.queue.len() > 0 {
        ChannelView { queue: channel.queue.drop_first(), closed: channel.closed }
    } else {
        channel
    }
}

/// One thing that one of the two sides does with the channel.
pub enum Op {
    /// The producer sends a chunk with these bytes.
    Send(Seq<u8>),
    /// The producer closes the channel.
    Close,
    /// The consumer receives.
    Recv,
}

/// A channel with the record of what went in and what came out.
pub struct Trace {
    /// The channel.
    pub channel: ChannelView,
    /// The chunks that the channel took, in the order in which they were
    /// sent.
    pub sent: Seq<Seq<u8>>,
    /// The chunks that the consumer got, in the order in which it got them.
    pub received: Seq<Seq<u8>>,
}

/// The trace after one more step.
pub open spec fn step(trace: Trace, op: Op) -> Trace {
    match op {
        Op::Send(chunk) => Trace {
            channel: after_send(trace.channel, chunk),
            sent: if trace.channel.closed {
                trace.sent
            } else {
                trace.sent.push(chunk)
            },
            received: trace.received,
        },
        Op::Close => Trace {
            channel: after_close(trace.channel),
            sent: trace.sent,
            received: trace.received,
        },
        Op::Recv => Trace {
            channel: after_recv(trace.channel),
            sent: trace.sent,
            received: match delivery(trace.channel) {
                Delivery::Chunk(chunk) => trace.received.push(chunk),
                _ => trace.received,
            },
        },
    }
}

/// The trace of a new channel after the steps `ops`, in their order: any
/// interleaving of what the producer and the consumer do.
pub open spec fn run(ops: Seq<Op>) -> Trace
    decreases ops.len(),
{
    if ops.len() == 0 {
        Trace {
            channel: ChannelView { queue: Seq::empty(), closed: false },
            sent: Seq::empty(),
            received: Seq::empty(),
        }
    } else {
        step(run(ops.drop_last()), ops.last())
    }
}

/// Order is preserved: however sending and receiving interleave, the chunks
/// that the consumer has got, followed by those that wait, are the chunks
/// that were sent, in the order in which they were sent. So the consumer gets
/// the chunks in that order, none twice and none left out before a later
/// one; and when it has been told that the channel is closed, it has got
/// them all.
pub proof fn lemma_order_preserved(ops: Seq<Op>)
    ensures
        run(ops).sent == run(ops).received + run(ops).channel.queue,
        run(ops).received.len() <= run(ops).sent.len(),
        forall|i: int|
            0 <= i < run(ops).received.len() ==> run(ops).received[i] == run(ops).sent[i],
        delivery(run(ops).channel) == Delivery::Closed ==> run(ops).received == run(ops).sent,
    decreases ops.len(),
{
    if ops.len() == 0 {
        assert(run(ops).sent =~= run(ops).received + run(ops).channel.queue);
    } else {
        let before = run(ops.drop_last());
        lemma_order_preserved(ops.drop_last());
        let now = run(ops);
        assert(now == step(before, ops.last()));
        assert(now.sent =~= now.received + now.channel.queue);
        if delivery(now.channel) == Delivery::Closed {
            assert(now.received + now.channel.queue =~= now.received);
        }
    }
}

/// The chunk channel.
pub struct ChunkChannel {
    queue: VecDeque<BytesMut>,
    closed: bool,
}

impl View for ChunkChannel {
    type V = ChannelView;

    closed spec fn view(&self) -> ChannelView {
        ChannelView {
            queue: self.queue@.map_values(|chunk: BytesMut| bytes_of(chunk)),
            closed: self.closed,
        }
    }
}

impl ChunkChannel {
    /// An open channel in which nothing waits.
    pub fn new() -> (channel: ChunkChannel)
        ensures
            channel@ == (ChannelView { queue: Seq::empty(), closed: false }),
    {
        let channel = ChunkChannel { queue: VecDeque::new(), closed: false };
        assert(channel@.queue =~= Seq::empty());
        channel
    }

    /// Sends `chunk`. The channel takes it whatever waits already; only a
    /// closed channel hands it back.
    pub fn send(&mut self, chunk: BytesMut) -> (refused: Result<(), BytesMut>)
        ensures
            final(self)@ == after_send(old(self)@, bytes_of(chunk)),
            match refused {
                Ok(_) => !old(self)@.closed,
                Err(back) => old(self)@.closed && back == chunk,
            },
    {
        if self.closed {
            Err(chunk)
        } else {
            self.queue.push_back(chunk);
            assert(self@.queue =~= old(self)@.queue.push(bytes_of(chunk)));
            Ok(())
        }
    }

    /// Closes the channel: no chunk will follow those that wait.
    pub fn close(&mut self)
        ensures
            final(self)@ == after_close(old(self)@),
    {
        self.closed = true;
    }

    /// Receives: the chunk that has waited longest, or word that none waits
    /// yet, or that none will come.
    pub fn recv(&mut self) -> (found: Received)
        ensures
            found@ == delivery(old(self)@),
            final(self)@ == after_recv(old(self)@),
    {
        match self.queue.pop_front() {
            Some(chunk) => {
                assert(self@.queue =~= old(self)@.queue.drop_first());
                Received::Chunk(chunk)
            },
            None => {
                assert(self@.queue =~= old(self)@.queue);
                if self.closed {
                    Received::Closed
                } else {
                    Received::Empty
                }
            },
        }
    }
}

} // verus!
