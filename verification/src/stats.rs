//! What became of the frames that were offered.

use crate::guard::IngestError;
use vstd::prelude::*;

verus! {

/// One more; counts wrap around.
pub open spec fn counted(count: u64) -> u64 {
    ((count + 1) % 0x1_0000_0000_0000_0000) as u64
}

/// Counters for a supervisor. Each wraps around.
#[derive(Clone, Copy, Debug, PartialEq, Eq, Structural)]
pub struct IngestStats {
    /// Frames that entered the cache.
    pub accepted: u64,
    /// Frames rejected because of their declared geometry.
    pub rejected_shape: u64,
    /// Frames rejected because of their number of elements.
    pub rejected_length: u64,
    /// Frames rejected because of an infinity or a NaN.
    pub rejected_non_finite: u64,
    /// Frames dropped because the queue was full.
    pub dropped_queue_full: u64,
    /// Frames dropped because ingest was suspended.
    pub dropped_suspended: u64,
}

impl IngestStats {
    /// Counters at zero.
    pub open spec fn zero() -> Self {
        IngestStats {
            accepted: 0,
            rejected_shape: 0,
            rejected_length: 0,
            rejected_non_finite: 0,
            dropped_queue_full: 0,
            dropped_suspended: 0,
        }
    }

    /// The counters after the cache answered a push with `result`.
    pub open spec fn after_push(self, result: Result<bool, IngestError>) -> Self {
        match result {
            Ok(_) => IngestStats { accepted: counted(self.accepted), ..self },
            Err(IngestError::ShapeMismatch { .. }) => IngestStats {
                rejected_shape: counted(self.rejected_shape),
                ..self
            },
            Err(IngestError::LengthMismatch { .. }) => IngestStats {
                rejected_length: counted(self.rejected_length),
                ..self
            },
            Err(IngestError::NonFiniteElement { .. }) => IngestStats {
                rejected_non_finite: counted(self.rejected_non_finite),
                ..self
            },
        }
    }

    /// The counters after a frame was dropped because the queue was full.
    pub open spec fn after_queue_full(self) -> Self {
        IngestStats { dropped_queue_full: counted(self.dropped_queue_full), ..self }
    }

    /// The counters after a frame was dropped because ingest was suspended.
    pub open spec fn after_suspended(self) -> Self {
        IngestStats { dropped_suspended: counted(self.dropped_suspended), ..self }
    }

    /// Frames that were offered to the cache.
    pub open spec fn offered(self) -> int {
        self.accepted + self.rejected_shape + self.rejected_length + self.rejected_non_finite
    }

    /// Counters at zero.
    pub fn new() -> (stats: Self)
        ensures
            stats == Self::zero(),
    {
        IngestStats {
            accepted: 0,
            rejected_shape: 0,
            rejected_length: 0,
            rejected_non_finite: 0,
            dropped_queue_full: 0,
            dropped_suspended: 0,
        }
    }

    /// Counts what the cache answered to a push.
    pub fn record_push(&mut self, result: &Result<bool, IngestError>)
        ensures
            *final(self) == old(self).after_push(*result),
    {
        match result {
            Ok(_) => {
                self.accepted = self.accepted.wrapping_add(1);
            },
            Err(IngestError::ShapeMismatch { .. }) => {
                self.rejected_shape = self.rejected_shape.wrapping_add(1);
            },
            Err(IngestError::LengthMismatch { .. }) => {
                self.rejected_length = self.rejected_length.wrapping_add(1);
            },
            Err(IngestError::NonFiniteElement { .. }) => {
                self.rejected_non_finite = self.rejected_non_finite.wrapping_add(1);
            },
        }
    }

    /// Counts a frame that was dropped because the queue was full.
    pub fn record_queue_full(&mut self)
        ensures
            *final(self) == old(self).after_queue_full(),
    {
        self.dropped_queue_full = self.dropped_queue_full.wrapping_add(1);
    }

    /// Counts a frame that was dropped because ingest was suspended.
    pub fn record_suspended(&mut self)
        ensures
            *final(self) == old(self).after_suspended(),
    {
        self.dropped_suspended = self.dropped_suspended.wrapping_add(1);
    }

    /// Frames that entered the cache.
    pub fn accepted(&self) -> (count: u64)
        ensures
            count == self.accepted,
    {
        self.accepted
    }

    /// Frames rejected because of their declared geometry.
    pub fn rejected_shape(&self) -> (count: u64)
        ensures
            count == self.rejected_shape,
    {
        self.rejected_shape
    }

    /// Frames rejected because of their declared geometry, under the name of the
    /// width that both devices have to agree on. Where it goes up with every
    /// frame, the sensor device projects for another model.
    pub fn rejected_dimension(&self) -> (count: u64)
        ensures
            count == self.rejected_shape,
    {
        self.rejected_shape
    }

    /// Frames rejected because of their number of elements.
    pub fn rejected_length(&self) -> (count: u64)
        ensures
            count == self.rejected_length,
    {
        self.rejected_length
    }

    /// Frames rejected because of an infinity or a NaN.
    pub fn rejected_non_finite(&self) -> (count: u64)
        ensures
            count == self.rejected_non_finite,
    {
        self.rejected_non_finite
    }

    /// Frames rejected for any reason; the count wraps around.
    pub fn rejected_total(&self) -> (count: u64)
        ensures
            count as int == (self.rejected_shape + self.rejected_length + self.rejected_non_finite)
                % 0x1_0000_0000_0000_0000,
    {
        self.rejected_shape.wrapping_add(self.rejected_length).wrapping_add(
            self.rejected_non_finite,
        )
    }

    /// Frames dropped because the queue was full.
    pub fn dropped_queue_full(&self) -> (count: u64)
        ensures
            count == self.dropped_queue_full,
    {
        self.dropped_queue_full
    }

    /// Frames dropped because ingest was suspended.
    pub fn dropped_suspended(&self) -> (count: u64)
        ensures
            count == self.dropped_suspended,
    {
        self.dropped_suspended
    }
}

/// A frame that the cache answers is counted once, under the answer, as long
/// as no counter wraps around.
pub proof fn law_each_frame_counts_once(stats: IngestStats, result: Result<bool, IngestError>)
    requires
        stats.accepted < u64::MAX,
        stats.rejected_shape < u64::MAX,
        stats.rejected_length < u64::MAX,
        stats.rejected_non_finite < u64::MAX,
    ensures
        stats.after_push(result).offered() == stats.offered() + 1,
        stats.after_push(result).accepted == stats.accepted + if result is Ok {
            1int
        } else {
            0
        },
        stats.after_push(result).dropped_queue_full == stats.dropped_queue_full,
        stats.after_push(result).dropped_suspended == stats.dropped_suspended,
{
}

} // verus!
