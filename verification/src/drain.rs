//! What a run of the drain loop leaves behind.
//!
//! The loop offers each frame that comes out of the queue to the cache, counts
//! the answer and hands the buffer back to the pool. Here a run of such rounds
//! is described as a whole.

use crate::config::FrameShape;
use crate::element::TokenElement;
use crate::guard;
use crate::guard::IngestError;
use crate::pool::PoolView;
use crate::stats;
use crate::stats::IngestStats;
use crate::time::{CaptureTimestamp, Span};
use crate::window;
use crate::window::{Arrival, Window};
use vstd::prelude::*;

verus! {

/// A frame that came out of the queue, and the reading of the cache's clock
/// when it was offered to the cache.
pub struct Offer<T> {
    pub tokens: Seq<T>,
    pub capture: CaptureTimestamp,
    pub declared: FrameShape,
    pub arrival: Span,
}

impl<T: TokenElement> Offer<T> {
    /// A cache that is configured for `shape` accepts the frame.
    pub open spec fn accepted(self, shape: FrameShape) -> bool {
        guard::admissible(self.tokens, shape, self.declared)
    }

    /// The reason for which a cache that is configured for `shape` rejects the
    /// frame, where it does.
    pub open spec fn reason(self, shape: FrameShape) -> IngestError {
        guard::rejection(self.tokens, shape, self.declared)
    }

    /// The frame, once it is accepted.
    pub open spec fn as_arrival(self) -> Arrival<T> {
        Arrival { tokens: self.tokens, capture: self.capture, arrival: self.arrival }
    }
}

/// Why a frame was rejected, without the particulars.
pub enum Cause {
    Shape,
    Length,
    NonFinite,
}

/// The cause that an error names.
pub open spec fn cause_of(error: IngestError) -> Cause {
    match error {
        IngestError::ShapeMismatch { .. } => Cause::Shape,
        IngestError::LengthMismatch { .. } => Cause::Length,
        IngestError::NonFiniteElement { .. } => Cause::NonFinite,
    }
}

/// The frames of a run that are accepted, in the order in which they came.
pub open spec fn accepted_of<T: TokenElement>(offers: Seq<Offer<T>>, shape: FrameShape) -> Seq<
    Arrival<T>,
>
    decreases offers.len(),
{
    if offers.len() == 0 {
        Seq::empty()
    } else {
        let earlier = accepted_of(offers.drop_last(), shape);
        if offers.last().accepted(shape) {
            earlier.push(offers.last().as_arrival())
        } else {
            earlier
        }
    }
}

/// How many frames of a run are rejected for `cause`.
pub open spec fn rejected_for<T: TokenElement>(
    offers: Seq<Offer<T>>,
    shape: FrameShape,
    cause: Cause,
) -> nat
    decreases offers.len(),
{
    if offers.len() == 0 {
        0
    } else {
        let last = offers.last();
        let one: nat = if !last.accepted(shape) && cause_of(last.reason(shape)) == cause {
            1
        } else {
            0
        };
        rejected_for(offers.drop_last(), shape, cause) + one
    }
}

/// How many buffers of a run hold one frame of a pool.
pub open spec fn fitting<T>(offers: Seq<Offer<T>>, frame_len: nat) -> nat
    decreases offers.len(),
{
    if offers.len() == 0 {
        0
    } else {
        let one: nat = if offers.last().tokens.len() == frame_len {
            1
        } else {
            0
        };
        fitting(offers.drop_last(), frame_len) + one
    }
}

/// What the drain loop works on: the cache, the counters and the pool.
#[verifier::ext_equal]
pub struct Path<T> {
    pub window: Window<T>,
    pub stats: IngestStats,
    pub pool: PoolView<T>,
}

impl<T: TokenElement> Path<T> {
    /// What the cache answers to an offer.
    pub open spec fn answer(self, offer: Offer<T>) -> Result<bool, IngestError> {
        if offer.accepted(self.window.shape) {
            Ok(self.window.frames.len() == self.window.capacity)
        } else {
            Err(offer.reason(self.window.shape))
        }
    }

    /// The path after one round of the loop.
    pub open spec fn committed(self, offer: Offer<T>) -> Self {
        Path {
            window: if offer.accepted(self.window.shape) {
                self.window.pushed(offer.tokens, offer.capture, offer.arrival)
            } else {
                self.window
            },
            stats: self.stats.after_push(self.answer(offer)),
            pool: self.pool.released(offer.tokens),
        }
    }

    /// The path after a round for each of `offers` in turn.
    pub open spec fn committed_all(self, offers: Seq<Offer<T>>) -> Self
        decreases offers.len(),
    {
        if offers.len() == 0 {
            self
        } else {
            self.committed_all(offers.drop_last()).committed(offers.last())
        }
    }
}

/// After a run of the drain loop the cache is what pushing the accepted frames
/// leaves, in the order in which they came and each once: no frame is lost,
/// repeated or reordered, and a rejected one leaves no trace. What pushing them
/// leaves is the most recent frames.
pub proof fn law_a_run_pushes_each_accepted_frame_once<T: TokenElement>(
    path: Path<T>,
    offers: Seq<Offer<T>>,
)
    ensures
        path.committed_all(offers).window == path.window.pushed_all(
            accepted_of(offers, path.window.shape),
        ),
        path.committed_all(offers).window.shape == path.window.shape,
        path.window.valid() ==> path.committed_all(offers).window.frames == window::newest(
            path.window.frames + path.window.numbered(accepted_of(offers, path.window.shape)),
            path.window.capacity,
        ),
    decreases offers.len(),
{
    let shape = path.window.shape;
    if offers.len() > 0 {
        let earlier = offers.drop_last();
        let last = offers.last();
        law_a_run_pushes_each_accepted_frame_once(path, earlier);
        if last.accepted(shape) {
            let arrivals = accepted_of(offers, shape);
            assert(arrivals.drop_last() =~= accepted_of(earlier, shape));
            assert(arrivals.last() == last.as_arrival());
        }
    }
    if path.window.valid() {
        window::law_window_holds_the_most_recent(path.window, accepted_of(offers, shape));
    }
}

/// Rounds can be cut into runs at any place.
pub proof fn law_runs_compose<T: TokenElement>(
    path: Path<T>,
    first: Seq<Offer<T>>,
    second: Seq<Offer<T>>,
)
    ensures
        path.committed_all(first + second) == path.committed_all(first).committed_all(second),
    decreases second.len(),
{
    if second.len() == 0 {
        assert(first + second =~= first);
    } else {
        law_runs_compose(path, first, second.drop_last());
        assert((first + second).drop_last() =~= first + second.drop_last());
        assert((first + second).last() == second.last());
    }
}

/// `count` more than `before`; counts wrap around.
pub open spec fn grown(before: u64, count: nat) -> u64 {
    ((before + count) % 0x1_0000_0000_0000_0000) as u64
}

/// One more than a count that has grown.
proof fn lemma_counted_once_more(before: u64, count: nat)
    ensures
        stats::counted(grown(before, count)) == grown(before, count + 1),
        grown(before, 0) == before,
{
}

/// After a run of the drain loop each frame has been counted once: the accepted
/// ones as accepted, as often as the cache's own count grew, and the rejected
/// ones under the cause of their rejection. Nothing else is counted.
pub proof fn law_a_run_counts_each_frame_once<T: TokenElement>(
    path: Path<T>,
    offers: Seq<Offer<T>>,
)
    ensures
        ({
            let after = path.committed_all(offers);
            let shape = path.window.shape;
            let accepted = accepted_of(offers, shape).len();
            let shapes = rejected_for(offers, shape, Cause::Shape);
            let lengths = rejected_for(offers, shape, Cause::Length);
            let non_finite = rejected_for(offers, shape, Cause::NonFinite);
            &&& accepted + shapes + lengths + non_finite == offers.len()
            &&& after.stats.accepted == grown(path.stats.accepted, accepted)
            &&& after.window.next_sequence == grown(path.window.next_sequence, accepted)
            &&& after.stats.rejected_shape == grown(path.stats.rejected_shape, shapes)
            &&& after.stats.rejected_length == grown(path.stats.rejected_length, lengths)
            &&& after.stats.rejected_non_finite == grown(
                path.stats.rejected_non_finite,
                non_finite,
            )
            &&& after.stats.dropped_queue_full == path.stats.dropped_queue_full
            &&& after.stats.dropped_suspended == path.stats.dropped_suspended
        }),
    decreases offers.len(),
{
    let shape = path.window.shape;
    if offers.len() > 0 {
        let earlier = offers.drop_last();
        let accepted = accepted_of(earlier, shape).len();
        law_a_run_counts_each_frame_once(path, earlier);
        law_a_run_pushes_each_accepted_frame_once(path, earlier);
        lemma_counted_once_more(path.stats.accepted, accepted);
        lemma_counted_once_more(path.window.next_sequence, accepted);
        lemma_counted_once_more(
            path.stats.rejected_shape,
            rejected_for(earlier, shape, Cause::Shape),
        );
        lemma_counted_once_more(
            path.stats.rejected_length,
            rejected_for(earlier, shape, Cause::Length),
        );
        lemma_counted_once_more(
            path.stats.rejected_non_finite,
            rejected_for(earlier, shape, Cause::NonFinite),
        );
    }
}

/// After a run of the drain loop every buffer that holds one frame of the pool
/// is back in it, whether its frame was accepted or rejected.
pub proof fn law_a_run_returns_every_buffer<T: TokenElement>(path: Path<T>, offers: Seq<Offer<T>>)
    ensures
        path.committed_all(offers).pool.frame_len == path.pool.frame_len,
        path.committed_all(offers).pool.fallbacks == path.pool.fallbacks,
        path.committed_all(offers).pool.free.len() == path.pool.free.len() + fitting(
            offers,
            path.pool.frame_len,
        ),
    decreases offers.len(),
{
    if offers.len() > 0 {
        law_a_run_returns_every_buffer(path, offers.drop_last());
    }
}

} // verus!
