//! The library's promises in numbers.
//!
//! The contracts of the library are written over predicates with names. The
//! laws here say what those predicates amount to, in the plain numbers that go
//! in and come out.

use crate::config::{FrameShape, IngestConfig};
use crate::drain;
use crate::drain::{Cause, Offer, Path};
use crate::element;
use crate::element::{F32Bits, F64Bits, TokenElement};
use crate::frame::FrameMeta;
use crate::guard;
use crate::guard::IngestError;
use crate::pool::PoolView;
use crate::ring_buffer;
use crate::selection;
use crate::selection::{ExportOutcome, ExportPolicy};
use crate::stats;
use crate::stats::IngestStats;
use crate::time::{CaptureTimestamp, Span};
use crate::window;
use crate::window::{Frame, Window};
use vstd::prelude::*;

verus! {

/// A binary32 number is finite exactly when its magnitude, the pattern without
/// the sign bit, lies below that of infinity; the sign plays no part, and zero
/// is the pattern without a bit.
pub proof fn law_single_precision_finiteness(element: F32Bits, negated: F32Bits)
    requires
        negated.bits == element.bits + 0x8000_0000,
    ensures
        element.finite() <==> element.bits < 0x7f80_0000,
        negated.finite() <==> element.finite(),
        F32Bits::zero().bits == 0,
{
    let bits: u32 = element.bits;
    let other: u32 = negated.bits;
    assert(bits < 0x8000_0000u32 ==> ((bits / 0x80_0000u32) % 0x100u32 != 0xff <==> bits
        < 0x7f80_0000u32)) by (bit_vector);
    assert(other >= 0x8000_0000u32 ==> ((other / 0x80_0000u32) % 0x100u32 != 0xff <==> other
        < 0xff80_0000u32)) by (bit_vector);
}

/// A binary64 number is finite exactly when its magnitude, the pattern without
/// the sign bit, lies below that of infinity; the sign plays no part, and zero
/// is the pattern without a bit.
pub proof fn law_double_precision_finiteness(element: F64Bits, negated: F64Bits)
    requires
        negated.bits == element.bits + 0x8000_0000_0000_0000,
    ensures
        element.finite() <==> element.bits < 0x7ff0_0000_0000_0000,
        negated.finite() <==> element.finite(),
        F64Bits::zero().bits == 0,
{
    let bits: u64 = element.bits;
    let other: u64 = negated.bits;
    assert(bits < 0x8000_0000_0000_0000u64 ==> ((bits / 0x10_0000_0000_0000u64) % 0x800u64
        != 0x7ff <==> bits < 0x7ff0_0000_0000_0000u64)) by (bit_vector);
    assert(other >= 0x8000_0000_0000_0000u64 ==> ((other / 0x10_0000_0000_0000u64) % 0x800u64
        != 0x7ff <==> other < 0xfff0_0000_0000_0000u64)) by (bit_vector);
}

/// The dimensions that the sensor side sizes against, and the default window.
pub proof fn law_published_dimensions()
    ensures
        IngestConfig::PATCH_COUNT == 27 * 27,
        IngestConfig::ENCODER_DIM == 1152,
        IngestConfig::COMPRESSED_DIM == 64,
        IngestConfig::TOKENS_PER_FRAME == 64,
        IngestConfig::MAX_FIFO_FRAMES == 10 * 3,
        IngestConfig::DEFAULT_FIFO_FRAMES == 10 * 3,
{
}

/// A frame of a shape has one element for each token and each place in it.
pub proof fn law_elements_of_a_shape(shape: FrameShape)
    ensures
        shape.elements() == shape.tokens * shape.dim,
        shape.countable() <==> shape.tokens * shape.dim <= usize::MAX,
{
}

/// A block is accepted exactly when its declared geometry is that of the cache,
/// it has an element for each token and each place in it, and all elements are
/// finite.
pub proof fn law_accepted_blocks<T: TokenElement>(
    tokens: Seq<T>,
    expected: FrameShape,
    declared: FrameShape,
)
    ensures
        guard::admissible(tokens, expected, declared) <==> {
            &&& declared.tokens == expected.tokens
            &&& declared.dim == expected.dim
            &&& tokens.len() == expected.tokens * expected.dim
            &&& forall|i: int| 0 <= i < tokens.len() ==> (#[trigger] tokens[i]).finite()
        },
{
}

/// What a rejection reports is so: another geometry was declared; or the
/// geometry is right and the number of elements is not; or both are right, and
/// the element it points at is the first that is not finite.
pub proof fn law_rejected_blocks<T: TokenElement>(
    tokens: Seq<T>,
    expected: FrameShape,
    declared: FrameShape,
    error: IngestError,
)
    requires
        expected.tokens * expected.dim <= usize::MAX,
        tokens.len() <= usize::MAX,
        guard::rejected_with(tokens, expected, declared, error),
    ensures
        match error {
            IngestError::ShapeMismatch { expected: wanted, actual } => {
                &&& wanted == expected
                &&& actual == declared
                &&& declared.tokens != expected.tokens || declared.dim != expected.dim
            },
            IngestError::LengthMismatch { expected: wanted, actual } => {
                &&& declared == expected
                &&& wanted == expected.tokens * expected.dim
                &&& actual == tokens.len()
                &&& wanted != actual
            },
            IngestError::NonFiniteElement { index } => {
                &&& declared == expected
                &&& tokens.len() == expected.tokens * expected.dim
                &&& index < tokens.len()
                &&& !tokens[index as int].finite()
                &&& forall|i: int| 0 <= i < index ==> (#[trigger] tokens[i]).finite()
            },
        },
{
    if let IngestError::NonFiniteElement { index } = error {
        assert forall|i: int| 0 <= i < index implies (#[trigger] tokens[i]).finite() by {
            assert(tokens.take(index as int)[i].finite());
        }
    }
}

/// An empty window has the geometry and the capacity it was made with, holds
/// nothing, starts to number at zero and has no staleness bound.
pub proof fn law_an_empty_window<T: TokenElement>(shape: FrameShape, capacity: nat)
    ensures
        ({
            let window = Window::<T>::empty(shape, capacity);
            &&& window.shape == shape
            &&& window.capacity == capacity
            &&& window.frames.len() == 0
            &&& window.next_sequence == 0
            &&& window.bound is None
        }),
{
}

/// A window that accepts a frame holds it last, with the next number, and
/// holds the others as they were; where it was full, the oldest is gone. The
/// numbers go up by one and begin again after the largest.
pub proof fn law_an_accepted_frame<T: TokenElement>(
    window: Window<T>,
    tokens: Seq<T>,
    capture: CaptureTimestamp,
    arrival: Span,
)
    requires
        window.valid(),
    ensures
        ({
            let after = window.pushed(tokens, capture, arrival);
            let gone: int = if window.frames.len() == window.capacity {
                1
            } else {
                0
            };
            let newest = after.frames.len() - 1;
            &&& after.frames.len() == window.frames.len() + 1 - gone
            &&& after.frames[newest].tokens == tokens
            &&& after.frames[newest].meta.capture.nanos == capture.nanos
            &&& after.frames[newest].meta.arrival.nanos == arrival.nanos
            &&& after.frames[newest].meta.sequence == window.next_sequence
            &&& forall|i: int|
                0 <= i < newest ==> #[trigger] after.frames[i] == window.frames[i + gone]
            &&& after.next_sequence == if window.next_sequence == u64::MAX {
                0
            } else {
                window.next_sequence + 1
            }
            &&& after.shape == window.shape
            &&& after.capacity == window.capacity
            &&& after.bound == window.bound
        }),
{
}

/// A valid window holds no more frames than its capacity, each with the right
/// number of elements, all finite; the newest has the number before the next,
/// and each frame has the number after that of the frame before it.
pub proof fn law_a_valid_window<T: TokenElement>(window: Window<T>, i: int)
    requires
        window.valid(),
        0 <= i < window.frames.len(),
    ensures
        window.frames.len() <= window.capacity,
        window.frames[i].tokens.len() == window.shape.tokens * window.shape.dim,
        forall|j: int|
            0 <= j < window.frames[i].tokens.len() ==> (
            #[trigger] window.frames[i].tokens[j]).finite(),
        ({
            let following = if i + 1 < window.frames.len() {
                window.frames[i + 1].meta.sequence
            } else {
                window.next_sequence
            };
            following == if window.frames[i].meta.sequence == u64::MAX {
                0
            } else {
                window.frames[i].meta.sequence + 1
            }
        }),
{
    if i + 1 < window.frames.len() {
        assert(window.frames[i + 1].meta.sequence == window::sequence_before(
            window.next_sequence,
            window.frames.len() - (i + 1),
        ));
    }
}

/// A cleared window holds nothing, and is else as it was.
pub proof fn law_a_cleared_window<T: TokenElement>(window: Window<T>)
    ensures
        window.cleared().frames.len() == 0,
        window.cleared().next_sequence == window.next_sequence,
        window.cleared().shape == window.shape,
        window.cleared().capacity == window.capacity,
        window.cleared().bound == window.bound,
{
}

/// The number of stale frames, counted over the frames themselves.
proof fn lemma_stale_frames<T: TokenElement>(
    frames: Seq<Frame<T>>,
    stale: spec_fn(Frame<T>) -> bool,
    limit: Option<Span>,
    now: Span,
)
    requires
        forall|frame: Frame<T>| #[trigger]
            stale(frame) == !selection::fresh(frame.meta, limit, now),
    ensures
        frames.filter(stale).len() == selection::stale_count(
            frames.map_values(|frame: Frame<T>| frame.meta),
            limit,
            now,
        ),
    decreases frames.len(),
{
    reveal(Seq::filter);
    if frames.len() > 0 {
        let metas = frames.map_values(|frame: Frame<T>| frame.meta);
        lemma_stale_frames(frames.drop_last(), stale, limit, now);
        assert(metas.drop_last() =~= frames.drop_last().map_values(
            |frame: Frame<T>| frame.meta,
        ));
        assert(stale(frames.last()) == !selection::fresh(frames.last().meta, limit, now));
    }
}

/// Frames that a condition accepts: the positions that an export of them takes.
proof fn lemma_positions_of_a_condition<T: TokenElement>(
    window: Window<T>,
    now: Span,
    keep: spec_fn(int) -> bool,
    out: Seq<T>,
    outcome: ExportOutcome,
) -> (positions: Seq<int>)
    requires
        window.exported(window.fresh_where(now, keep), window.bound, now, out, outcome),
    ensures
        forall|k: int|
            0 <= k < positions.len() ==> 0 <= #[trigger] positions[k] < window.frames.len(),
        forall|k: int, l: int| 0 <= k < l < positions.len() ==> positions[k] < positions[l],
        forall|i: int|
            0 <= i < window.frames.len() ==> (#[trigger] positions.contains(i) <==> {
                &&& window.bound matches Some(bound) ==> now.nanos
                    - window.frames[i].meta.arrival.nanos <= bound.nanos
                &&& keep(i)
            }),
        out == Seq::new(positions.len(), |k: int| window.frames[positions[k]].tokens).flatten(),
        outcome.frames == positions.len(),
        outcome.retained == window.frames.len(),
        outcome.excluded_stale == window.frames.filter(
            |frame: Frame<T>|
                window.bound matches Some(bound) && now.nanos - frame.meta.arrival.nanos
                    > bound.nanos,
        ).len(),
{
    let positions = window.fresh_where(now, keep);
    window::lemma_positions_where(window.frames.len(), window.fresh_and(now, keep));
    assert forall|i: int| 0 <= i < window.frames.len() implies (#[trigger] positions.contains(i)
        <==> {
        &&& window.bound matches Some(bound) ==> now.nanos - window.frames[i].meta.arrival.nanos
            <= bound.nanos
        &&& keep(i)
    }) by {
        window::law_the_bound_holds_for_every_condition(window, now, keep, i);
    }
    assert(window.blocks(positions) =~= Seq::new(
        positions.len(),
        |k: int| window.frames[positions[k]].tokens,
    ));
    lemma_stale_frames(
        window.frames,
        |frame: Frame<T>|
            window.bound matches Some(bound) && now.nanos - frame.meta.arrival.nanos > bound.nanos,
        window.bound,
        now,
    );
    positions
}

/// An export around an event takes, oldest first, exactly the frames that are
/// within the staleness bound and were captured at most `before` earlier than
/// the event or at most `after` later. How far it reaches to one side does not
/// depend on how far it reaches to the other.
pub proof fn law_event_export<T: TokenElement>(
    window: Window<T>,
    event: CaptureTimestamp,
    before: Span,
    after: Span,
    now: Span,
    out: Seq<T>,
    outcome: ExportOutcome,
) -> (positions: Seq<int>)
    requires
        window.exported_around(event, before, after, now, out, outcome),
    ensures
        forall|k: int|
            0 <= k < positions.len() ==> 0 <= #[trigger] positions[k] < window.frames.len(),
        forall|k: int, l: int| 0 <= k < l < positions.len() ==> positions[k] < positions[l],
        forall|i: int|
            0 <= i < window.frames.len() ==> (#[trigger] positions.contains(i) <==> {
                &&& window.bound matches Some(bound) ==> now.nanos
                    - window.frames[i].meta.arrival.nanos <= bound.nanos
                &&& window.frames[i].meta.capture.nanos <= event.nanos ==> event.nanos
                    - window.frames[i].meta.capture.nanos <= before.nanos
                &&& window.frames[i].meta.capture.nanos > event.nanos
                    ==> window.frames[i].meta.capture.nanos - event.nanos <= after.nanos
            }),
        out == Seq::new(positions.len(), |k: int| window.frames[positions[k]].tokens).flatten(),
        outcome.frames == positions.len(),
        outcome.retained == window.frames.len(),
        outcome.excluded_stale == window.frames.filter(
            |frame: Frame<T>|
                window.bound matches Some(bound) && now.nanos - frame.meta.arrival.nanos
                    > bound.nanos,
        ).len(),
{
    lemma_positions_of_a_condition(
        window,
        now,
        window.around(event, before, after),
        out,
        outcome,
    )
}

/// An export of the frames that a predicate accepts takes, oldest first,
/// exactly those within the staleness bound of which the predicate said `true`.
pub proof fn law_predicate_export<T: TokenElement, F: Fn(&FrameMeta) -> bool>(
    window: Window<T>,
    predicate: F,
    verdicts: Seq<bool>,
    now: Span,
    out: Seq<T>,
    outcome: ExportOutcome,
) -> (positions: Seq<int>)
    requires
        ring_buffer::verdicts_of(predicate, window, now, verdicts),
        window.exported_matching(verdicts, now, out, outcome),
    ensures
        forall|k: int|
            0 <= k < positions.len() ==> 0 <= #[trigger] positions[k] < window.frames.len(),
        forall|k: int, l: int| 0 <= k < l < positions.len() ==> positions[k] < positions[l],
        forall|i: int|
            0 <= i < window.frames.len() && (window.bound matches Some(bound) ==> now.nanos
                - window.frames[i].meta.arrival.nanos <= bound.nanos) ==> call_ensures(
                predicate,
                (&window.frames[i].meta,),
                #[trigger] positions.contains(i),
            ),
        forall|i: int|
            0 <= i < window.frames.len() && (window.bound matches Some(bound) && now.nanos
                - window.frames[i].meta.arrival.nanos > bound.nanos)
                ==> !#[trigger] positions.contains(i),
        out == Seq::new(positions.len(), |k: int| window.frames[positions[k]].tokens).flatten(),
        outcome.frames == positions.len(),
        outcome.retained == window.frames.len(),
        outcome.excluded_stale == window.frames.filter(
            |frame: Frame<T>|
                window.bound matches Some(bound) && now.nanos - frame.meta.arrival.nanos
                    > bound.nanos,
        ).len(),
{
    let positions = lemma_positions_of_a_condition(
        window,
        now,
        window::accepted_by(verdicts),
        out,
        outcome,
    );
    assert forall|i: int|
        0 <= i < window.frames.len() && (window.bound matches Some(bound) ==> now.nanos
            - window.frames[i].meta.arrival.nanos <= bound.nanos) implies call_ensures(
        predicate,
        (&window.frames[i].meta,),
        #[trigger] positions.contains(i),
    ) by {
        assert(positions.contains(i) == verdicts[i]);
    }
    positions
}

/// An export of the window takes, oldest first, exactly the frames within the
/// staleness bound.
pub proof fn law_window_export<T: TokenElement>(
    window: Window<T>,
    now: Span,
    out: Seq<T>,
    outcome: ExportOutcome,
) -> (positions: Seq<int>)
    requires
        window.exported_all(now, out, outcome),
    ensures
        forall|k: int|
            0 <= k < positions.len() ==> 0 <= #[trigger] positions[k] < window.frames.len(),
        forall|k: int, l: int| 0 <= k < l < positions.len() ==> positions[k] < positions[l],
        forall|i: int|
            0 <= i < window.frames.len() ==> (#[trigger] positions.contains(i) <==> (
            window.bound matches Some(bound) ==> now.nanos - window.frames[i].meta.arrival.nanos
                <= bound.nanos)),
        out == Seq::new(positions.len(), |k: int| window.frames[positions[k]].tokens).flatten(),
        outcome.frames == positions.len(),
        outcome.retained == window.frames.len(),
        outcome.excluded_stale == window.frames.filter(
            |frame: Frame<T>|
                window.bound matches Some(bound) && now.nanos - frame.meta.arrival.nanos
                    > bound.nanos,
        ).len(),
{
    lemma_positions_of_a_condition(window, now, window::everything(), out, outcome)
}

/// An export under a policy takes, oldest first, exactly the frames that
/// - are within the staleness bound and within the policy's own age limit,
/// - stand a multiple of the stride behind the newest,
/// - were captured at least the least interval before the next newer frame that
///   is taken, and
/// - are among the newest such frames, as many as the policy allows.
pub proof fn law_policy_export<T: TokenElement>(
    window: Window<T>,
    policy: ExportPolicy,
    now: Span,
    out: Seq<T>,
    outcome: ExportOutcome,
) -> (positions: Seq<int>)
    requires
        window.exported_with(policy, now, out, outcome),
    ensures
        positions.len() <= policy.max_frames,
        forall|k: int|
            0 <= k < positions.len() ==> 0 <= #[trigger] positions[k] < window.frames.len(),
        forall|k: int, l: int| 0 <= k < l < positions.len() ==> positions[k] < positions[l],
        forall|i: int|
            0 <= i < window.frames.len() ==> (#[trigger] positions.contains(i) <==> {
                &&& window.bound matches Some(bound) ==> now.nanos
                    - window.frames[i].meta.arrival.nanos <= bound.nanos
                &&& policy.max_age matches Some(max_age) ==> now.nanos
                    - window.frames[i].meta.arrival.nanos <= max_age.nanos
                &&& policy.stride > 1 ==> (window.frames.len() - 1 - i) % (policy.stride as int)
                    == 0
                &&& policy.min_interval matches Some(gap) ==> forall|k: int|
                    0 <= k < positions.len() && i < #[trigger] positions[k] && (k == 0
                        || positions[k - 1] <= i) ==> {
                        ||| gap.nanos == 0
                        ||| window.frames[positions[k]].meta.capture.nanos
                            - window.frames[i].meta.capture.nanos >= gap.nanos
                    }
                &&& !(positions.len() == policy.max_frames && forall|k: int|
                    0 <= k < positions.len() ==> i < #[trigger] positions[k])
            }),
        out == Seq::new(positions.len(), |k: int| window.frames[positions[k]].tokens).flatten(),
        outcome.frames == positions.len(),
        outcome.retained == window.frames.len(),
        outcome.excluded_stale == window.frames.filter(
            |frame: Frame<T>|
                {
                    ||| window.bound matches Some(bound) && now.nanos - frame.meta.arrival.nanos
                        > bound.nanos
                    ||| policy.max_age matches Some(max_age) && now.nanos
                        - frame.meta.arrival.nanos > max_age.nanos
                },
        ).len(),
{
    let metas = window.metas();
    let limit = window.limit(policy);
    let positions = selection::selection(metas, policy, limit, now);
    selection::law_selection_is_ordered(metas, policy, limit, now);
    assert forall|i: int| 0 <= i < window.frames.len() implies (#[trigger] positions.contains(i)
        <==> {
        &&& window.bound matches Some(bound) ==> now.nanos - window.frames[i].meta.arrival.nanos
            <= bound.nanos
        &&& policy.max_age matches Some(max_age) ==> now.nanos
            - window.frames[i].meta.arrival.nanos <= max_age.nanos
        &&& policy.stride > 1 ==> (window.frames.len() - 1 - i) % (policy.stride as int) == 0
        &&& policy.min_interval matches Some(gap) ==> forall|k: int|
            0 <= k < positions.len() && i < #[trigger] positions[k] && (k == 0 || positions[k - 1]
                <= i) ==> {
                ||| gap.nanos == 0
                ||| window.frames[positions[k]].meta.capture.nanos
                    - window.frames[i].meta.capture.nanos >= gap.nanos
            }
        &&& !(positions.len() == policy.max_frames && forall|k: int|
            0 <= k < positions.len() ==> i < #[trigger] positions[k])
    }) by {
        let meta = window.frames[i].meta;
        assert(metas[i] == meta);
        selection::law_tightest_limit_narrows(meta, window.bound, policy.max_age, now);
        if positions.contains(i) {
            let at = choose|at: int| 0 <= at < positions.len() && positions[at] == i;
            selection::law_selection_obeys_the_policy(metas, policy, limit, now, at);
            assert forall|k: int|
                0 <= k < positions.len() && i < #[trigger] positions[k] && (k == 0 || positions[k
                    - 1] <= i) && policy.min_interval is Some implies {
                ||| policy.min_interval->0.nanos == 0
                ||| window.frames[positions[k]].meta.capture.nanos
                    - window.frames[i].meta.capture.nanos >= policy.min_interval->0.nanos
            } by {
                if k <= at {
                    assert(positions[k] <= positions[at]);
                }
                if at < k - 1 {
                    assert(positions[at] < positions[k - 1]);
                }
                assert(k == at + 1);
            }
        } else {
            selection::law_nothing_is_left_out_without_reason(metas, policy, limit, now, i);
            if exists|k: int| selection::crowded_by(metas, policy, positions, i, k) {
                let k = choose|k: int| selection::crowded_by(metas, policy, positions, i, k);
                if k > 0 {
                    assert(positions.take(k)[k - 1] < i);
                }
                assert(metas[positions[k]] == window.frames[positions[k]].meta);
            }
        }
    }
    assert(window.blocks(positions) =~= Seq::new(
        positions.len(),
        |k: int| window.frames[positions[k]].tokens,
    ));
    lemma_stale_frames(
        window.frames,
        |frame: Frame<T>|
            {
                ||| window.bound matches Some(bound) && now.nanos - frame.meta.arrival.nanos
                    > bound.nanos
                ||| policy.max_age matches Some(max_age) && now.nanos - frame.meta.arrival.nanos
                    > max_age.nanos
            },
        limit,
        now,
    );
    positions
}

/// Sequence numbers count up by one, begin again after the largest, and going
/// back as many steps as forward leads to the same number.
pub proof fn law_sequence_numbers(sequence: u64, steps: nat)
    requires
        steps <= u64::MAX,
    ensures
        window::sequence_before(sequence, 0) == sequence,
        window::sequence_before(sequence, -1) == if sequence == u64::MAX {
            0
        } else {
            sequence + 1
        },
        window::sequence_before(sequence, steps as int) == if steps <= sequence {
            sequence - steps
        } else {
            sequence - steps + u64::MAX + 1
        },
        window::sequence_before(window::sequence_before(sequence, -steps), steps as int)
            == sequence,
{
}

/// Frames that a window accepts in turn keep what they are and get numbers one
/// after the other, the first of them the window's next.
pub proof fn law_accepted_frames_are_numbered<T: TokenElement>(
    window: Window<T>,
    arrivals: Seq<window::Arrival<T>>,
    i: int,
)
    requires
        0 <= i < arrivals.len(),
    ensures
        window.numbered(arrivals).len() == arrivals.len(),
        window.numbered(arrivals)[i].tokens == arrivals[i].tokens,
        window.numbered(arrivals)[i].meta.capture == arrivals[i].capture,
        window.numbered(arrivals)[i].meta.arrival == arrivals[i].arrival,
        window.numbered(arrivals)[0].meta.sequence == window.next_sequence,
        i > 0 ==> window.numbered(arrivals)[i].meta.sequence == if window.numbered(arrivals)[i
            - 1].meta.sequence == u64::MAX {
            0
        } else {
            window.numbered(arrivals)[i - 1].meta.sequence + 1
        },
{
}

/// The newest of some items are the last of them, as many as asked for, or all
/// where there are not as many.
pub proof fn law_the_newest_are_the_last<A>(items: Seq<A>, count: nat, i: int)
    ensures
        window::newest(items, count).len() == if items.len() < count {
            items.len()
        } else {
            count
        },
        0 <= i < window::newest(items, count).len() ==> window::newest(items, count)[i] == items[i
            + items.len() - window::newest(items, count).len()],
{
}

/// Each answer of the cache counts up one counter by one, the one that goes by
/// its name, and leaves the others; a counter begins again after the largest
/// number.
pub proof fn law_counters(
    stats: IngestStats,
    evicted: bool,
    expected: FrameShape,
    actual: FrameShape,
    wanted: usize,
    len: usize,
    index: usize,
)
    requires
        stats.accepted < u64::MAX,
        stats.rejected_shape < u64::MAX,
        stats.rejected_length < u64::MAX,
        stats.rejected_non_finite < u64::MAX,
        stats.dropped_queue_full < u64::MAX,
        stats.dropped_suspended < u64::MAX,
    ensures
        stats.after_push(Ok(evicted)) == (IngestStats {
            accepted: (stats.accepted + 1) as u64,
            ..stats
        }),
        stats.after_push(Err(IngestError::ShapeMismatch { expected, actual })) == (IngestStats {
            rejected_shape: (stats.rejected_shape + 1) as u64,
            ..stats
        }),
        stats.after_push(Err(IngestError::LengthMismatch { expected: wanted, actual: len })) == (
        IngestStats { rejected_length: (stats.rejected_length + 1) as u64, ..stats }),
        stats.after_push(Err(IngestError::NonFiniteElement { index })) == (IngestStats {
            rejected_non_finite: (stats.rejected_non_finite + 1) as u64,
            ..stats
        }),
        stats.after_queue_full() == (IngestStats {
            dropped_queue_full: (stats.dropped_queue_full + 1) as u64,
            ..stats
        }),
        stats.after_suspended() == (IngestStats {
            dropped_suspended: (stats.dropped_suspended + 1) as u64,
            ..stats
        }),
        stats::counted(u64::MAX) == 0,
        IngestStats::zero().accepted == 0,
        IngestStats::zero().rejected_shape == 0,
        IngestStats::zero().rejected_length == 0,
        IngestStats::zero().rejected_non_finite == 0,
        IngestStats::zero().dropped_queue_full == 0,
        IngestStats::zero().dropped_suspended == 0,
{
}

/// A lease takes the buffer that came back last, as it is, and leaves the
/// others. Only where there is none, one frame of zeroes is made and counted.
pub proof fn law_a_lease<T: TokenElement>(pool: PoolView<T>)
    ensures
        pool.acquired().frame_len == pool.frame_len,
        pool.free.len() > 0 ==> {
            &&& pool.leased() == pool.free[pool.free.len() - 1]
            &&& pool.acquired().free == pool.free.subrange(0, pool.free.len() - 1)
            &&& pool.acquired().fallbacks == pool.fallbacks
        },
        pool.free.len() == 0 ==> {
            &&& pool.leased().len() == pool.frame_len
            &&& forall|i: int| 0 <= i < pool.frame_len ==> #[trigger] pool.leased()[i] == T::zero()
            &&& pool.acquired().free.len() == 0
            &&& pool.acquired().fallbacks == if pool.fallbacks == u64::MAX {
                0
            } else {
                pool.fallbacks + 1
            }
        },
        pool.valid() <==> forall|i: int|
            0 <= i < pool.free.len() ==> (#[trigger] pool.free[i]).len() == pool.frame_len,
{
}

/// A buffer that comes back joins the others behind them, where it holds one
/// frame of the pool, and is discarded where it does not.
pub proof fn law_a_return<T: TokenElement>(pool: PoolView<T>, block: Seq<T>)
    ensures
        block.len() == pool.frame_len ==> pool.released(block).free == pool.free + seq![block],
        block.len() != pool.frame_len ==> pool.released(block).free == pool.free,
        pool.released(block).frame_len == pool.frame_len,
        pool.released(block).fallbacks == pool.fallbacks,
{
    assert(pool.free.push(block) =~= pool.free + seq![block]);
}

/// A block of zeroes has the length asked for, and zeroes only.
pub proof fn law_a_blank_block<T: TokenElement>(len: nat)
    ensures
        element::blank_block::<T>(len).len() == len,
        forall|i: int| 0 <= i < len ==> #[trigger] element::blank_block::<T>(len)[i] == T::zero(),
{
}

/// What an outcome says: nothing was held; or something was, and all of it was
/// too old.
pub proof fn law_outcomes(outcome: ExportOutcome)
    ensures
        outcome.blind() <==> outcome.retained == 0,
        outcome.stale() <==> outcome.retained != 0 && outcome.excluded_stale == outcome.retained,
{
}

/// The limit that holds of two is one of the two, and no longer than either.
pub proof fn law_the_tightest_limit(a: Option<Span>, b: Option<Span>)
    ensures
        selection::tightest(a, b) == a || selection::tightest(a, b) == b,
        selection::tightest(a, b) is None <==> a is None && b is None,
        a is Some ==> selection::tightest(a, b)->0.nanos <= a->0.nanos,
        b is Some ==> selection::tightest(a, b)->0.nanos <= b->0.nanos,
{
}

/// A frame is fresh exactly when no more time than the limit lies between its
/// arrival and now.
pub proof fn law_freshness(meta: FrameMeta, limit: Span, now: Span)
    ensures
        selection::fresh(meta, Some(limit), now) <==> now.nanos <= meta.arrival.nanos
            + limit.nanos,
        selection::fresh(meta, None, now),
        now.nanos >= meta.arrival.nanos ==> selection::age(meta, now) == now.nanos
            - meta.arrival.nanos,
        now.nanos <= meta.arrival.nanos ==> selection::age(meta, now) == 0,
{
}

/// One round of the drain loop: a frame of the cache's geometry, with the right
/// number of elements, all finite, is pushed, and the answer says whether the
/// cache was full; another leaves the cache as it is. Either way the answer is
/// counted, and the buffer goes back to the pool.
pub proof fn law_one_round<T: TokenElement>(path: Path<T>, offer: Offer<T>)
    ensures
        ({
            let shape = path.window.shape;
            let accepted = {
                &&& offer.declared == shape
                &&& offer.tokens.len() == shape.tokens * shape.dim
                &&& forall|i: int|
                    0 <= i < offer.tokens.len() ==> (#[trigger] offer.tokens[i]).finite()
            };
            let after = path.committed(offer);
            &&& path.answer(offer) is Ok <==> accepted
            &&& accepted ==> {
                &&& path.answer(offer)->Ok_0 == (path.window.frames.len() == path.window.capacity)
                &&& after.window == path.window.pushed(offer.tokens, offer.capture, offer.arrival)
            }
            &&& !accepted ==> after.window == path.window
            &&& after.stats == path.stats.after_push(path.answer(offer))
            &&& after.pool == path.pool.released(offer.tokens)
        }),
{
}

/// A run of rounds is the rounds one after the other, in the order of the
/// offers.
pub proof fn law_runs_are_rounds_in_turn<T: TokenElement>(
    path: Path<T>,
    offers: Seq<Offer<T>>,
    offer: Offer<T>,
)
    ensures
        path.committed_all(Seq::empty()) == path,
        path.committed_all(offers.push(offer)) == path.committed_all(offers).committed(offer),
{
    assert(offers.push(offer).drop_last() =~= offers);
}

/// The frames of a run that are accepted are those of the right geometry, with
/// the right number of elements, all finite; they keep their order and what
/// they are.
pub proof fn law_accepted_frames_of_a_run<T: TokenElement>(
    offers: Seq<Offer<T>>,
    shape: FrameShape,
)
    ensures
        drain::accepted_of(offers, shape) == offers.filter(
            |offer: Offer<T>|
                {
                    &&& offer.declared == shape
                    &&& offer.tokens.len() == shape.tokens * shape.dim
                    &&& forall|i: int|
                        0 <= i < offer.tokens.len() ==> (#[trigger] offer.tokens[i]).finite()
                },
        ).map_values(
            |offer: Offer<T>|
                window::Arrival {
                    tokens: offer.tokens,
                    capture: offer.capture,
                    arrival: offer.arrival,
                },
        ),
    decreases offers.len(),
{
    reveal(Seq::filter);
    let right = |offer: Offer<T>|
        {
            &&& offer.declared == shape
            &&& offer.tokens.len() == shape.tokens * shape.dim
            &&& forall|i: int|
                0 <= i < offer.tokens.len() ==> (#[trigger] offer.tokens[i]).finite()
        };
    let kept = |offer: Offer<T>|
        window::Arrival { tokens: offer.tokens, capture: offer.capture, arrival: offer.arrival };
    if offers.len() > 0 {
        law_accepted_frames_of_a_run(offers.drop_last(), shape);
        assert(right(offers.last()) == offers.last().accepted(shape));
        assert(drain::accepted_of(offers, shape) =~= offers.filter(right).map_values(kept));
    } else {
        assert(drain::accepted_of(offers, shape) =~= offers.filter(right).map_values(kept));
    }
}

/// How many frames of a run are rejected for another geometry, and how many for
/// another number of elements.
pub proof fn law_rejected_frames_of_a_run<T: TokenElement>(
    offers: Seq<Offer<T>>,
    shape: FrameShape,
)
    requires
        forall|i: int| 0 <= i < offers.len() ==> (#[trigger] offers[i]).tokens.len() <= usize::MAX,
    ensures
        drain::rejected_for(offers, shape, Cause::Shape) == offers.filter(
            |offer: Offer<T>| offer.declared != shape,
        ).len(),
        drain::rejected_for(offers, shape, Cause::Length) == offers.filter(
            |offer: Offer<T>|
                offer.declared == shape && offer.tokens.len() != shape.tokens * shape.dim,
        ).len(),
        drain::rejected_for(offers, shape, Cause::NonFinite) == offers.filter(
            |offer: Offer<T>|
                {
                    &&& offer.declared == shape
                    &&& offer.tokens.len() == shape.tokens * shape.dim
                    &&& exists|i: int|
                        0 <= i < offer.tokens.len() && !(#[trigger] offer.tokens[i]).finite()
                },
        ).len(),
    decreases offers.len(),
{
    reveal(Seq::filter);
    if offers.len() > 0 {
        let last = offers.last();
        assert(last.tokens.len() <= usize::MAX);
        assert forall|i: int| 0 <= i < offers.drop_last().len() implies (
        #[trigger] offers.drop_last()[i]).tokens.len() <= usize::MAX by {
            assert(offers[i].tokens.len() <= usize::MAX);
        }
        law_rejected_frames_of_a_run(offers.drop_last(), shape);
        if !last.accepted(shape) {
            guard::law_every_rejection_has_a_reason(last.tokens, shape, last.declared);
        }
    }
}

/// How many buffers of a run hold one frame of a pool, and how a count grows.
pub proof fn law_buffers_of_a_run<T: TokenElement>(
    offers: Seq<Offer<T>>,
    frame_len: nat,
    before: u64,
    count: nat,
)
    ensures
        drain::fitting(offers, frame_len) == offers.filter(
            |offer: Offer<T>| offer.tokens.len() == frame_len,
        ).len(),
        before + count <= u64::MAX ==> drain::grown(before, count) == before + count,
    decreases offers.len(),
{
    reveal(Seq::filter);
    if offers.len() > 0 {
        law_buffers_of_a_run(offers.drop_last(), frame_len, before, count);
    }
}

} // verus!
