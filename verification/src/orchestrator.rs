//! The way of a frame from the receive task through the queue into the cache.
//!
//! The queue is a bounded channel of tokio. Publishing never blocks and never
//! waits: a full queue drops the frame and counts the drop. Waiting for the
//! next frame is left to the task that drives the drain loop; it hands each
//! frame to [`AsyncIngestOrchestrator::commit`].

use crate::call;
use crate::config::FrameShape;
use crate::drain::{Offer, Path};
use crate::element::TokenElement;
use crate::guard;
use crate::guard::IngestError;
use crate::pool::{BufferPool, FrameLease, PoolView};
use crate::ring_buffer::IngestRingBuffer;
use crate::stats::IngestStats;
use crate::time::Span;
use crate::window::Window;
use tokio::sync::mpsc::error::TrySendError;
use tokio::sync::mpsc::{Receiver, Sender};
use vstd::prelude::*;

verus! {

/// Declares `tokio::sync::mpsc::Sender`, the end of a queue that frames go in
/// at. Nothing is known of its inside.
#[verifier::external_type_specification]
#[verifier::external_body]
#[verifier::reject_recursive_types(T)]
pub struct ExSender<T>(tokio::sync::mpsc::Sender<T>);

/// Declares `tokio::sync::mpsc::Receiver`, the end of a queue that frames come
/// out at. Nothing is known of its inside.
#[verifier::external_type_specification]
#[verifier::external_body]
#[verifier::reject_recursive_types(T)]
pub struct ExReceiver<T>(tokio::sync::mpsc::Receiver<T>);

/// What the queue answered to a frame that was offered to it.
pub enum SendReply<T: TokenElement> {
    /// The queue took the frame.
    Sent,
    /// The queue was full; the frame comes back.
    Full(FrameLease<T>),
    /// The draining end is gone; the frame comes back.
    Closed(FrameLease<T>),
}

impl<T: TokenElement> SendReply<T> {
    /// A frame that comes back is the one that was offered.
    pub open spec fn answers(self, lease: FrameLease<T>) -> bool {
        match self {
            SendReply::Sent => true,
            SendReply::Full(back) => back == lease,
            SendReply::Closed(back) => back == lease,
        }
    }
}

/// Opens a bounded queue with `tokio::sync::mpsc::channel`, which panics on a
/// bound of zero and on one beyond its largest number of permits. Nothing is
/// claimed of the two ends: what they hold changes under both of them.
#[verifier::external_body]
pub(crate) fn open_queue<T: TokenElement>(max_queue: usize) -> (ends: (
    Sender<FrameLease<T>>,
    Receiver<FrameLease<T>>,
))
    requires
        0 < max_queue <= usize::MAX / 8,
{
    tokio::sync::mpsc::channel(max_queue)
}

/// Offers a frame to the queue with `Sender::try_send`, which returns at once.
/// A frame that the queue does not take comes back unchanged. Whether the
/// queue takes it depends on what the other tasks have done to the queue, so
/// nothing is claimed of that.
#[verifier::external_body]
pub(crate) fn offer_to_queue<T: TokenElement>(
    queue: &Sender<FrameLease<T>>,
    lease: FrameLease<T>,
) -> (reply: SendReply<T>)
    ensures
        reply.answers(lease),
{
    match queue.try_send(lease) {
        Ok(()) => SendReply::Sent,
        Err(TrySendError::Full(back)) => SendReply::Full(back),
        Err(TrySendError::Closed(back)) => SendReply::Closed(back),
    }
}

/// Switch on the ingest path. While it is off, publishing costs a look at
/// the switch, and the leased buffer goes back to the pool at once: nothing is
/// queued or copied.
#[derive(Clone, Copy, Debug, PartialEq, Eq, Structural)]
pub struct IngestControl {
    /// Ingest is running.
    pub active: bool,
}

impl IngestControl {
    /// A switch that is on.
    pub fn new() -> (control: Self)
        ensures
            control.active,
    {
        IngestControl { active: true }
    }

    /// Switches ingest off.
    pub fn suspend(&mut self)
        ensures
            !final(self).active,
    {
        self.active = false;
    }

    /// Switches ingest on.
    pub fn resume(&mut self)
        ensures
            final(self).active,
    {
        self.active = true;
    }

    /// Whether ingest is running.
    pub fn is_active(&self) -> (result: bool)
        ensures
            result == self.active,
    {
        self.active
    }
}

/// The producers' end of the ingest path.
#[verifier::reject_recursive_types(T)]
pub struct FrameSender<T: TokenElement> {
    pub(crate) queue: Sender<FrameLease<T>>,
}

impl<T: TokenElement> FrameSender<T> {
    /// This frame was offered to the queue of this sender, which answered with
    /// `reply`.
    pub closed spec fn offered(self, lease: FrameLease<T>, reply: SendReply<T>) -> bool {
        call_ensures(offer_to_queue::<T>, (&self.queue, lease), reply)
    }

    /// Acts on what the queue answered. A frame that the queue did not take is
    /// dropped and its buffer goes back to the pool; the drop is counted where
    /// the queue was full.
    ///
    /// Returns `true` when the queue took the frame.
    pub fn settle(
        reply: SendReply<T>,
        stats: &mut IngestStats,
        pool: &mut BufferPool<T>,
    ) -> (published: bool)
        requires
            old(pool)@.valid(),
        ensures
            final(pool)@.valid(),
            match reply {
                SendReply::Sent => {
                    &&& published
                    &&& *final(stats) == *old(stats)
                    &&& *final(pool) == *old(pool)
                },
                SendReply::Full(back) => {
                    &&& !published
                    &&& *final(stats) == old(stats).after_queue_full()
                    &&& final(pool)@ == old(pool)@.released(back@.tokens)
                },
                SendReply::Closed(back) => {
                    &&& !published
                    &&& *final(stats) == *old(stats)
                    &&& final(pool)@ == old(pool)@.released(back@.tokens)
                },
            },
    {
        match reply {
            SendReply::Sent => true,
            SendReply::Full(back) => {
                stats.record_queue_full();
                pool.release(back);
                false
            },
            SendReply::Closed(back) => {
                pool.release(back);
                false
            },
        }
    }

    /// Publishes a frame to the drain loop, or drops it; it never blocks.
    ///
    /// While ingest is suspended the frame is dropped and counted as such.
    /// Otherwise it is offered to the queue as it is; see [`Self::settle`].
    ///
    /// Returns `true` when the queue took the frame.
    pub fn try_publish(
        &self,
        lease: FrameLease<T>,
        control: &IngestControl,
        stats: &mut IngestStats,
        pool: &mut BufferPool<T>,
    ) -> (published: bool)
        requires
            old(pool)@.valid(),
        ensures
            final(pool)@.valid(),
            !control.active ==> {
                &&& !published
                &&& *final(stats) == old(stats).after_suspended()
            },
            published ==> {
                &&& *final(stats) == *old(stats)
                &&& *final(pool) == *old(pool)
            },
            !published ==> final(pool)@ == old(pool)@.released(lease@.tokens),
            control.active ==> exists|reply: SendReply<T>|
                {
                    &&& #[trigger] self.offered(lease, reply)
                    &&& reply.answers(lease)
                    &&& published == (reply is Sent)
                    &&& *final(stats) == (if reply is Full {
                        old(stats).after_queue_full()
                    } else {
                        *old(stats)
                    })
                },
    {
        if !control.is_active() {
            stats.record_suspended();
            pool.release(lease);
            return false;
        }
        let reply = call::call_two(offer_to_queue, &self.queue, lease);
        assert(self.offered(lease, reply));
        Self::settle(reply, stats, pool)
    }
}

/// The draining end of the ingest path.
#[verifier::reject_recursive_types(T)]
pub struct AsyncIngestOrchestrator<T: TokenElement> {
    /// Published frames, in the order in which they were published.
    pub frame_rx: Receiver<FrameLease<T>>,
}

impl<T: TokenElement> AsyncIngestOrchestrator<T> {
    /// This end and the sender are the two ends of one queue, which was opened
    /// to hold at most `max_queue` frames.
    pub closed spec fn joined(self, sender: FrameSender<T>, max_queue: usize) -> bool {
        call_ensures(open_queue::<T>, (max_queue,), (sender.queue, self.frame_rx))
    }

    /// Builds the draining end, alongside the producers' end and the cache
    /// that the frames go to.
    ///
    /// `max_queue` bounds the queue: once it is full, frames are dropped
    /// rather than growing the queue.
    pub fn new(shape: FrameShape, capacity: usize, max_queue: usize) -> (parts: (
        Self,
        FrameSender<T>,
        IngestRingBuffer<T>,
    ))
        requires
            0 < shape.tokens,
            0 < shape.dim,
            0 < capacity,
            shape.elements() * capacity <= usize::MAX,
            0 < max_queue <= usize::MAX / 8,
        ensures
            parts.0.joined(parts.1, max_queue),
            parts.2.wf(),
            parts.2.clock().started(),
            parts.2@ == Window::<T>::empty(shape, capacity as nat),
    {
        let buffer = IngestRingBuffer::new(shape, capacity);
        let (queue, frame_rx) = call::call_one(open_queue, max_queue);
        (AsyncIngestOrchestrator { frame_rx }, FrameSender { queue }, buffer)
    }

    /// Acts on what came out of the queue when the cache's clock reads
    /// `arrival`. A frame is offered to the cache; the round that comes back is
    /// to be counted with [`Self::account`], and the loop goes on, whatever the
    /// cache answered. Where the queue has come to its end there is no round,
    /// and the loop ends.
    pub fn receive_at(
        received: Option<FrameLease<T>>,
        buffer: &mut IngestRingBuffer<T>,
        arrival: Span,
    ) -> (round: Option<Round<T>>)
        requires
            old(buffer).wf(),
        ensures
            final(buffer).wf(),
            final(buffer).clock() == old(buffer).clock(),
            round is Some <==> received is Some,
            round is None ==> *final(buffer) == *old(buffer),
            round matches Some(round) ==> {
                &&& round.lease == received->0
                &&& round.pushed(*old(buffer), *final(buffer), arrival)
            },
    {
        match received {
            Some(lease) => {
                let (capture, declared) = lease.header();
                let result = buffer.push_snapshot_at(&lease, capture, declared, arrival);
                Some(Round { lease, result })
            },
            None => None,
        }
    }

    /// [`Self::receive_at`], with arrival stamped by the cache's own clock.
    pub fn receive(
        received: Option<FrameLease<T>>,
        buffer: &mut IngestRingBuffer<T>,
    ) -> (round: Option<Round<T>>)
        requires
            old(buffer).wf(),
        ensures
            final(buffer).wf(),
            final(buffer).clock() == old(buffer).clock(),
            round is Some <==> received is Some,
            round is None ==> *final(buffer) == *old(buffer),
            round matches Some(round) ==> {
                &&& round.lease == received->0
                &&& exists|arrival: Span|
                    {
                        &&& old(buffer).clock().reads(arrival)
                        &&& #[trigger] round.pushed(*old(buffer), *final(buffer), arrival)
                    }
            },
    {
        let arrival = buffer.now();
        Self::receive_at(received, buffer, arrival)
    }

    /// Counts what the cache answered and hands the buffer back to the pool.
    pub fn account(
        round: Round<T>,
        stats: &mut IngestStats,
        pool: &mut BufferPool<T>,
    ) -> (result: Result<bool, IngestError>)
        requires
            old(pool)@.valid(),
        ensures
            final(pool)@.valid(),
            result == round.result,
            *final(stats) == old(stats).after_push(round.result),
            final(pool)@ == old(pool)@.released(round.lease@.tokens),
    {
        let Round { lease, result } = round;
        stats.record_push(&result);
        pool.release(lease);
        result
    }

    /// One round of the drain loop: offers a published frame to the cache when
    /// its clock reads `arrival`, counts the answer, and hands the buffer back
    /// to the pool. A frame that the guard rejects is counted and skipped.
    pub fn commit_at(
        lease: FrameLease<T>,
        buffer: &mut IngestRingBuffer<T>,
        stats: &mut IngestStats,
        pool: &mut BufferPool<T>,
        arrival: Span,
    ) -> (result: Result<bool, IngestError>)
        requires
            old(buffer).wf(),
            old(pool)@.valid(),
        ensures
            final(buffer).wf(),
            final(buffer).clock() == old(buffer).clock(),
            final(pool)@.valid(),
            result == path_of(*old(buffer), *old(stats), *old(pool)).answer(
                offer_of(lease, arrival),
            ),
            path_of(*final(buffer), *final(stats), *final(pool)) == path_of(
                *old(buffer),
                *old(stats),
                *old(pool),
            ).committed(offer_of(lease, arrival)),
            (Round { lease, result }).pushed(*old(buffer), *final(buffer), arrival),
    {
        let ghost before = *buffer;
        let (capture, declared) = lease.header();
        let result = buffer.push_snapshot_at(&lease, capture, declared, arrival);
        let round = Round { lease, result };
        proof {
            law_receiving_and_accounting_is_one_round(
                round,
                before,
                *buffer,
                arrival,
                *stats,
                pool@,
            );
        }
        Self::account(round, stats, pool)
    }

    /// One round of the drain loop, with arrival stamped by the cache's own
    /// clock; see [`Self::commit_at`].
    pub fn commit(
        lease: FrameLease<T>,
        buffer: &mut IngestRingBuffer<T>,
        stats: &mut IngestStats,
        pool: &mut BufferPool<T>,
    ) -> (result: Result<bool, IngestError>)
        requires
            old(buffer).wf(),
            old(pool)@.valid(),
        ensures
            final(buffer).wf(),
            final(buffer).clock() == old(buffer).clock(),
            final(pool)@.valid(),
            exists|arrival: Span|
                {
                    &&& old(buffer).clock().reads(arrival)
                    &&& result == path_of(*old(buffer), *old(stats), *old(pool)).answer(
                        offer_of(lease, arrival),
                    )
                    &&& path_of(*final(buffer), *final(stats), *final(pool)) == path_of(
                        *old(buffer),
                        *old(stats),
                        *old(pool),
                    ).committed(#[trigger] offer_of(lease, arrival))
                    &&& (Round { lease, result }).pushed(*old(buffer), *final(buffer), arrival)
                },
    {
        let arrival = buffer.now();
        let ghost offer = offer_of(lease, arrival);
        Self::commit_at(lease, buffer, stats, pool, arrival)
    }
}

/// A frame that was offered to the cache, and what the cache answered.
pub struct Round<T: TokenElement> {
    /// The frame.
    pub lease: FrameLease<T>,
    /// The answer; see [`IngestRingBuffer::push_snapshot`].
    pub result: Result<bool, IngestError>,
}

impl<T: TokenElement> Round<T> {
    /// The cache was `before`, was offered the frame when its clock read
    /// `arrival`, gave this answer, and was `after` then.
    pub open spec fn pushed(
        self,
        before: IngestRingBuffer<T>,
        after: IngestRingBuffer<T>,
        arrival: Span,
    ) -> bool {
        &&& self.result is Ok <==> guard::admissible(
            self.lease@.tokens,
            before@.shape,
            self.lease@.declared,
        )
        &&& self.result matches Ok(evicted) ==> {
            &&& after@ == before@.pushed(self.lease@.tokens, self.lease@.capture, arrival)
            &&& evicted == (before@.frames.len() == before@.capacity)
        }
        &&& self.result matches Err(error) ==> {
            &&& guard::rejected_with(
                self.lease@.tokens,
                before@.shape,
                self.lease@.declared,
                error,
            )
            &&& after == before
        }
    }
}

/// The frame as it is offered to the cache when its clock reads `arrival`.
pub open spec fn offer_of<T: TokenElement>(lease: FrameLease<T>, arrival: Span) -> Offer<T> {
    Offer {
        tokens: lease@.tokens,
        capture: lease@.capture,
        declared: lease@.declared,
        arrival,
    }
}

/// What the drain loop works on.
pub open spec fn path_of<T: TokenElement>(
    buffer: IngestRingBuffer<T>,
    stats: IngestStats,
    pool: BufferPool<T>,
) -> Path<T> {
    Path { window: buffer@, stats, pool: pool@ }
}

/// Receiving a frame and accounting for it is one round of the drain loop: it
/// gives the answer, and leaves the cache, the counters and the pool, that
/// [`Path::committed`] describes.
pub proof fn law_receiving_and_accounting_is_one_round<T: TokenElement>(
    round: Round<T>,
    before: IngestRingBuffer<T>,
    after: IngestRingBuffer<T>,
    arrival: Span,
    stats: IngestStats,
    pool: PoolView<T>,
)
    requires
        round.pushed(before, after, arrival),
    ensures
        round.result == (Path { window: before@, stats, pool }).answer(
            offer_of(round.lease, arrival),
        ),
        (Path {
            window: after@,
            stats: stats.after_push(round.result),
            pool: pool.released(round.lease@.tokens),
        }) == (Path { window: before@, stats, pool }).committed(offer_of(round.lease, arrival)),
{
    if round.result is Err {
        let error = round.result->Err_0;
        guard::law_one_reason_for_a_rejection(
            round.lease@.tokens,
            before@.shape,
            round.lease@.declared,
            error,
            error,
        );
    }
}

/// The two ends of a path are the two ends that opening one queue with a bound
/// of exactly `max_queue` returned.
pub(crate) proof fn law_the_ends_are_those_of_one_opening<T: TokenElement>(
    orchestrator: AsyncIngestOrchestrator<T>,
    sender: FrameSender<T>,
    max_queue: usize,
)
    ensures
        orchestrator.joined(sender, max_queue) <==> call_ensures(
            open_queue::<T>,
            (max_queue,),
            (sender.queue, orchestrator.frame_rx),
        ),
{
}

/// What is offered to a sender's queue is this very frame, and a frame that
/// comes back is the one that was offered.
pub(crate) proof fn law_an_offer_is_made_to_the_senders_queue<T: TokenElement>(
    sender: FrameSender<T>,
    lease: FrameLease<T>,
    reply: SendReply<T>,
)
    ensures
        sender.offered(lease, reply) <==> call_ensures(
            offer_to_queue::<T>,
            (&sender.queue, lease),
            reply,
        ),
        reply.answers(lease) <==> {
            &&& reply matches SendReply::Full(back) ==> back == lease
            &&& reply matches SendReply::Closed(back) ==> back == lease
        },
{
}

/// What a round says of the cache: it accepts the frame exactly when the
/// declared geometry is its own, the number of elements is right and all are
/// finite. It then holds the frame last, stamped with the arrival, and says
/// whether it was full; else it is as it was.
pub proof fn law_a_round<T: TokenElement>(
    round: Round<T>,
    before: IngestRingBuffer<T>,
    after: IngestRingBuffer<T>,
    arrival: Span,
)
    requires
        before@.valid(),
        round.pushed(before, after, arrival),
    ensures
        round.result is Ok <==> {
            let tokens = round.lease@.tokens;
            &&& round.lease@.declared == before@.shape
            &&& tokens.len() == before@.shape.tokens * before@.shape.dim
            &&& forall|i: int| 0 <= i < tokens.len() ==> (#[trigger] tokens[i]).finite()
        },
        round.result is Ok ==> {
            let newest = after@.frames.len() - 1;
            &&& round.result->Ok_0 == (before@.frames.len() == before@.capacity)
            &&& newest >= 0
            &&& after@.frames[newest].tokens == round.lease@.tokens
            &&& after@.frames[newest].meta.capture.nanos == round.lease@.capture.nanos
            &&& after@.frames[newest].meta.arrival.nanos == arrival.nanos
        },
        round.result is Err ==> after == before,
{
}

/// A frame is offered to the cache with what the lease holds, and the path is
/// made of the cache, the counters and the pool as they are.
pub proof fn law_paths_and_offers<T: TokenElement>(
    lease: FrameLease<T>,
    arrival: Span,
    buffer: IngestRingBuffer<T>,
    stats: IngestStats,
    pool: BufferPool<T>,
)
    ensures
        offer_of(lease, arrival).tokens == lease@.tokens,
        offer_of(lease, arrival).capture == lease@.capture,
        offer_of(lease, arrival).declared == lease@.declared,
        offer_of(lease, arrival).arrival == arrival,
        path_of(buffer, stats, pool).window == buffer@,
        path_of(buffer, stats, pool).stats == stats,
        path_of(buffer, stats, pool).pool == pool@,
{
}

/// Everything that an ingest path consists of.
#[verifier::reject_recursive_types(T)]
pub struct IngestHandles<T: TokenElement> {
    /// The draining end.
    pub orchestrator: AsyncIngestOrchestrator<T>,
    /// The producers' end.
    pub sender: FrameSender<T>,
    /// Counters for a supervisor.
    pub stats: IngestStats,
    /// The switch.
    pub control: IngestControl,
    /// The cache.
    pub buffer: IngestRingBuffer<T>,
}

impl<T: TokenElement> IngestHandles<T> {
    /// An ingest path into a cache of `capacity` frames of the given geometry,
    /// over a queue of at most `max_queue` frames. Ingest is running.
    pub fn new(shape: FrameShape, capacity: usize, max_queue: usize) -> (handles: Self)
        requires
            0 < shape.tokens,
            0 < shape.dim,
            0 < capacity,
            shape.elements() * capacity <= usize::MAX,
            0 < max_queue <= usize::MAX / 8,
        ensures
            handles.orchestrator.joined(handles.sender, max_queue),
            handles.buffer.wf(),
            handles.buffer.clock().started(),
            handles.buffer@ == Window::<T>::empty(shape, capacity as nat),
            handles.control.active,
            handles.stats == IngestStats::zero(),
    {
        let (orchestrator, sender, buffer) = AsyncIngestOrchestrator::new(
            shape,
            capacity,
            max_queue,
        );
        IngestHandles {
            orchestrator,
            sender,
            stats: IngestStats::new(),
            control: IngestControl::new(),
            buffer,
        }
    }
}

} // verus!
