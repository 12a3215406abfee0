//! Fixed-capacity cyclic cache of the most recent frames.

use crate::config::{FrameShape, IngestConfig};
use crate::element;
use crate::element::TokenElement;
use crate::frame::{CompressedFrame, FrameMeta};
use crate::guard;
use crate::guard::{IngestError, StreamGuard};
use crate::selection;
use crate::time::{CaptureTimestamp, NodeClock, Span};
use crate::window;
use crate::window::{Frame, Window};
use vstd::prelude::*;

pub use crate::selection::{ExportOutcome, ExportPolicy};

verus! {

/// Fixed-capacity cyclic cache of the most recent frames.
///
/// Token storage is one flat, contiguous block sized at construction to hold
/// `capacity` frames. Pushing copies into a slot; nothing is allocated, moved
/// or freed on the hot path, and the resident footprint is constant for the
/// life of the cache.
pub struct IngestRingBuffer<T: TokenElement> {
    tokens: Vec<T>,
    meta: Vec<Option<FrameMeta>>,
    oldest: usize,
    retained: usize,
    head: u64,
    shape: FrameShape,
    frame_len: usize,
    bound: Option<Span>,
    clock: NodeClock,
}

/// The store with its elements from `at` on replaced by those of `block`.
spec fn overwritten<T>(store: Seq<T>, at: int, block: Seq<T>) -> Seq<T> {
    Seq::new(
        store.len(),
        |i: int|
            if at <= i < at + block.len() {
                block[i - at]
            } else {
                store[i]
            },
    )
}

/// A slot lies within the store.
proof fn lemma_slot_fits(slot: int, frame_len: int, capacity: int)
    requires
        0 <= slot < capacity,
        0 <= frame_len,
    ensures
        0 <= slot * frame_len,
        slot * frame_len + frame_len <= capacity * frame_len,
        slot * frame_len + frame_len == (slot + 1) * frame_len,
{
    assert(slot * frame_len + frame_len == (slot + 1) * frame_len) by (nonlinear_arith);
    assert(0 <= slot * frame_len && (slot + 1) * frame_len <= capacity * frame_len)
        by (nonlinear_arith)
        requires
            0 <= slot < capacity,
            0 <= frame_len,
    ;
}

/// Different slots do not overlap.
proof fn lemma_slots_apart(a: int, b: int, frame_len: int)
    requires
        a < b,
        0 <= frame_len,
    ensures
        a * frame_len + frame_len <= b * frame_len,
{
    assert(a * frame_len + frame_len <= b * frame_len) by (nonlinear_arith)
        requires
            a < b,
            0 <= frame_len,
    ;
}

/// No more blocks than there are slots take no more room than the slots do.
proof fn lemma_blocks_fit(blocks: int, frame_len: int, slots: int)
    requires
        0 <= blocks <= slots,
        0 <= frame_len,
    ensures
        0 <= blocks * frame_len <= slots * frame_len,
{
    assert(0 <= blocks * frame_len <= slots * frame_len) by (nonlinear_arith)
        requires
            0 <= blocks <= slots,
            0 <= frame_len,
    ;
}

/// Copies `block` over the elements of `store` that start at `at`.
fn copy_block<T: TokenElement>(store: &mut Vec<T>, at: usize, block: &[T])
    requires
        at + block@.len() <= old(store)@.len(),
    ensures
        final(store)@ == overwritten(old(store)@, at as int, block@),
{
    let ghost before = store@;
    let end: usize = store.len();
    let mut j: usize = 0;
    while j < block.len()
        invariant
            j <= block@.len(),
            end == store@.len(),
            at + block@.len() <= end,
            store@ =~= overwritten(before, at as int, block@.take(j as int)),
        decreases block@.len() - j,
    {
        store.set(at + j, block[j]);
        j = j + 1;
    }
    assert(block@.take(j as int) =~= block@);
}

/// Appends `block` to `out`.
fn append_block<T: TokenElement>(out: &mut Vec<T>, block: &[T])
    ensures
        final(out)@ == old(out)@ + block@,
{
    let ghost before = out@;
    let mut j: usize = 0;
    while j < block.len()
        invariant
            j <= block@.len(),
            out@ =~= before + block@.take(j as int),
        decreases block@.len() - j,
    {
        out.push(block[j]);
        j = j + 1;
    }
    assert(block@.take(j as int) =~= block@);
}

/// `verdicts` holds what `predicate` says of each retained frame that is not
/// too old.
pub open spec fn verdicts_of<T: TokenElement, F: Fn(&FrameMeta) -> bool>(
    predicate: F,
    window: Window<T>,
    now: Span,
    verdicts: Seq<bool>,
) -> bool {
    &&& verdicts.len() == window.frames.len()
    &&& forall|i: int|
        0 <= i < window.frames.len() && selection::fresh(window.frames[i].meta, window.bound, now)
            ==> call_ensures(predicate, (&window.frames[i].meta,), #[trigger] verdicts[i])
}

impl<T: TokenElement> IngestRingBuffer<T> {
    /// How many frames the cache can hold.
    spec fn slots(self) -> nat {
        self.meta@.len()
    }

    /// The slot of the frame at `position`, counted from the oldest.
    spec fn slot(self, position: int) -> int {
        if self.oldest + position < self.slots() {
            self.oldest + position
        } else {
            self.oldest + position - self.slots()
        }
    }

    /// How far the slot lies behind that of the oldest frame.
    spec fn distance(self, slot: int) -> int {
        if slot >= self.oldest {
            slot - self.oldest
        } else {
            slot + self.slots() - self.oldest
        }
    }

    /// The tokens that a slot holds.
    spec fn block(self, slot: int) -> Seq<T> {
        self.tokens@.subrange(
            slot * self.frame_len,
            slot * self.frame_len + self.frame_len,
        )
    }

    /// Every element of the slot is zero.
    spec fn blank(self, slot: int) -> bool {
        forall|j: int|
            slot * self.frame_len <= j < slot * self.frame_len + self.frame_len
                ==> self.tokens@[j] == T::zero()
    }

    /// The frame at `position`, counted from the oldest.
    spec fn frame(self, position: int) -> Frame<T> {
        Frame {
            meta: self.meta@[self.slot(position)].unwrap(),
            tokens: self.block(self.slot(position)),
        }
    }

    /// The token storage, whatever it holds.
    pub closed spec fn store(self) -> Seq<T> {
        self.tokens@
    }

    /// The clock that arrivals and ages are measured with.
    pub closed spec fn clock(self) -> NodeClock {
        self.clock
    }

    /// The window that the cache holds.
    pub closed spec fn view(self) -> Window<T> {
        Window {
            shape: self.shape,
            capacity: self.slots(),
            next_sequence: self.head,
            frames: Seq::new(self.retained as nat, |i: int| self.frame(i)),
            bound: self.bound,
        }
    }

    /// The cache is in order: every slot of the window is described, and every
    /// other slot is blank.
    pub closed spec fn wf(self) -> bool {
        &&& self.layout_wf()
        &&& forall|s: int|
            0 <= s < self.slots() ==> ((#[trigger] self.meta@[s]) is Some <==> self.distance(s)
                < self.retained)
        &&& forall|s: int|
            0 <= s < self.slots() && self.distance(s) >= self.retained ==> #[trigger] self.blank(s)
        &&& self@.valid()
    }

    /// The sizes of the parts fit together.
    spec fn layout_wf(self) -> bool {
        &&& 0 < self.shape.tokens
        &&& 0 < self.shape.dim
        &&& self.frame_len == self.shape.elements()
        &&& 0 < self.slots() <= usize::MAX
        &&& self.slots() * self.frame_len <= usize::MAX
        &&& self.tokens@.len() == self.slots() * self.frame_len
        &&& self.oldest < self.slots()
        &&& self.retained <= self.slots()
    }
}

impl<T: TokenElement> IngestRingBuffer<T> {
    /// Allocates the full token block and slot metadata up front, for
    /// `capacity` frames of the given geometry, and starts the cache's clock.
    pub fn new(shape: FrameShape, capacity: usize) -> (cache: Self)
        requires
            0 < shape.tokens,
            0 < shape.dim,
            0 < capacity,
            shape.elements() * capacity <= usize::MAX,
        ensures
            cache.wf(),
            cache.clock().started(),
            cache@ == Window::<T>::empty(shape, capacity as nat),
    {
        proof {
            lemma_slot_fits(0, shape.elements() as int, capacity as int);
            assert(shape.elements() * capacity == capacity * shape.elements())
                by (nonlinear_arith);
            assert(shape.elements() > 0) by (nonlinear_arith)
                requires
                    0 < shape.tokens,
                    0 < shape.dim,
            ;
        }
        let frame_len: usize = shape.frame_len();
        let total: usize = frame_len * capacity;
        let tokens: Vec<T> = element::blank_buffer(total);
        let mut meta: Vec<Option<FrameMeta>> = Vec::with_capacity(capacity);
        while meta.len() < capacity
            invariant
                meta@.len() <= capacity,
                forall|s: int| 0 <= s < meta@.len() ==> meta@[s] is None,
            decreases capacity - meta@.len(),
        {
            meta.push(None);
        }
        let cache = IngestRingBuffer {
            tokens,
            meta,
            oldest: 0,
            retained: 0,
            head: 0,
            shape,
            frame_len,
            bound: None,
            clock: NodeClock::start(),
        };
        proof {
            assert forall|s: int| 0 <= s < cache.slots() implies #[trigger] cache.blank(s) by {
                lemma_slot_fits(s, frame_len as int, capacity as int);
            }
            assert(cache@ =~= Window::<T>::empty(shape, capacity as nat));
        }
        cache
    }

    /// The slot of the frame at `position`, counted from the oldest; for the
    /// position behind the newest frame, the slot that the next frame goes to.
    fn slot_of(&self, position: usize) -> (slot: usize)
        requires
            self.layout_wf(),
            position <= self.retained,
        ensures
            slot == self.slot(position as int),
            slot < self.slots(),
    {
        let behind: usize = self.meta.len() - self.oldest;
        if position < behind {
            self.oldest + position
        } else {
            position - behind
        }
    }

    /// Validates a token block and copies it into the next slot, overwriting
    /// the oldest frame once the window is full. The frame counts as arrived
    /// when the cache's clock read `arrival`.
    ///
    /// Returns `true` when the write evicted a live frame. On error the cache
    /// is untouched and the frame is discarded.
    pub fn push_snapshot_at(
        &mut self,
        tokens: &[T],
        capture: CaptureTimestamp,
        declared: FrameShape,
        arrival: Span,
    ) -> (result: Result<bool, IngestError>)
        requires
            old(self).wf(),
        ensures
            final(self).wf(),
            final(self).clock() == old(self).clock(),
            result is Ok <==> guard::admissible(tokens@, old(self)@.shape, declared),
            result matches Ok(evicted) ==> {
                &&& final(self)@ == old(self)@.pushed(tokens@, capture, arrival)
                &&& evicted == (old(self)@.frames.len() == old(self)@.capacity)
            },
            result matches Err(error) ==> {
                &&& guard::rejected_with(tokens@, old(self)@.shape, declared, error)
                &&& *final(self) == *old(self)
            },
    {
        proof {
            lemma_slot_fits(0, self.frame_len as int, self.slots() as int);
        }
        match StreamGuard::verify(tokens, self.shape, declared) {
            Ok(()) => {},
            Err(error) => {
                return Err(error);
            },
        }
        let slot: usize = self.slot_of(self.retained);
        proof {
            lemma_slot_fits(slot as int, self.frame_len as int, self.slots() as int);
        }
        let start: usize = slot * self.frame_len;
        copy_block(&mut self.tokens, start, tokens);
        let evicted = self.meta[slot].is_some();
        self.meta.set(slot, Some(FrameMeta { capture, arrival, sequence: self.head }));
        if evicted {
            self.oldest = if self.oldest + 1 < self.meta.len() {
                self.oldest + 1
            } else {
                0
            };
        } else {
            self.retained = self.retained + 1;
        }
        self.head = self.head.wrapping_add(1);
        proof {
            old(self).lemma_written(*self, tokens@, capture, arrival);
        }
        Ok(evicted)
    }

    /// The cache `after` differs from this one by a block written to the slot
    /// behind the newest frame: it holds the window with that frame accepted.
    proof fn lemma_written(
        self,
        after: Self,
        tokens: Seq<T>,
        capture: CaptureTimestamp,
        arrival: Span,
    )
        requires
            self.wf(),
            guard::admissible(tokens, self.shape, self.shape),
            ({
                let slot = self.slot(self.retained as int);
                let full = self.retained == self.slots();
                &&& after.tokens@ == overwritten(self.tokens@, slot * self.frame_len, tokens)
                &&& after.meta@ == self.meta@.update(
                    slot,
                    Some(FrameMeta { capture, arrival, sequence: self.head }),
                )
                &&& after.oldest == if !full {
                    self.oldest as int
                } else if self.oldest + 1 < self.slots() {
                    self.oldest + 1
                } else {
                    0
                }
                &&& after.retained == if full {
                    self.retained as int
                } else {
                    self.retained + 1
                }
                &&& after.head == window::sequence_before(self.head, -1)
                &&& after.shape == self.shape
                &&& after.frame_len == self.frame_len
                &&& after.bound == self.bound
            }),
        ensures
            after.wf(),
            after@ == self@.pushed(tokens, capture, arrival),
    {
        let slot = self.slot(self.retained as int);
        let full = self.retained == self.slots();
        let dropped: int = if full {
            1
        } else {
            0
        };
        let frame_len = self.frame_len as int;
        lemma_slot_fits(slot, frame_len, self.slots() as int);
        assert forall|s: int| 0 <= s < self.slots() && s != slot implies #[trigger] after.block(s)
            == self.block(s) by {
            lemma_slot_fits(s, frame_len, self.slots() as int);
            if s < slot {
                lemma_slots_apart(s, slot, frame_len);
            } else {
                lemma_slots_apart(slot, s, frame_len);
            }
            assert(after.block(s) =~= self.block(s));
        }
        assert(after.block(slot) =~= tokens);
        let expected = self@.pushed(tokens, capture, arrival);
        window::law_pushing_keeps_a_window_valid(self@, tokens, capture, arrival);
        assert forall|i: int| 0 <= i < after.retained implies after.frame(i)
            == #[trigger] expected.frames[i] by {
            if i < after.retained - 1 {
                assert(after.slot(i) == self.slot(i + dropped));
                assert(after.slot(i) != slot);
                assert(expected.frames[i] == self@.frames[i + dropped]);
            } else {
                assert(after.slot(i) == slot);
            }
        }
        assert(after@ =~= expected);
        assert forall|s: int|
            0 <= s < after.slots() && after.distance(s)
                >= after.retained implies #[trigger] after.blank(s) by {
            assert(s != slot);
            assert(self.blank(s));
            lemma_slot_fits(s, frame_len, self.slots() as int);
            if s < slot {
                lemma_slots_apart(s, slot, frame_len);
            } else {
                lemma_slots_apart(slot, s, frame_len);
            }
        }
    }
}

impl<T: TokenElement> IngestRingBuffer<T> {
    /// Validates a token block and copies it into the next slot, overwriting
    /// the oldest frame once the window is full. Arrival is stamped with the
    /// cache's own clock.
    ///
    /// Returns `true` when the write evicted a live frame. On error the cache
    /// is untouched and the frame is discarded.
    pub fn push_snapshot(
        &mut self,
        tokens: &[T],
        capture: CaptureTimestamp,
        declared: FrameShape,
    ) -> (result: Result<bool, IngestError>)
        requires
            old(self).wf(),
        ensures
            final(self).wf(),
            final(self).clock() == old(self).clock(),
            result is Ok <==> guard::admissible(tokens@, old(self)@.shape, declared),
            result matches Ok(evicted) ==> {
                &&& exists|arrival: Span|
                    {
                        &&& old(self).clock().reads(arrival)
                        &&& final(self)@ == #[trigger] old(self)@.pushed(
                            tokens@,
                            capture,
                            arrival,
                        )
                    }
                &&& evicted == (old(self)@.frames.len() == old(self)@.capacity)
            },
            result matches Err(error) ==> {
                &&& guard::rejected_with(tokens@, old(self)@.shape, declared, error)
                &&& *final(self) == *old(self)
            },
    {
        let arrival = self.clock.read();
        self.push_snapshot_at(tokens, capture, declared, arrival)
    }

    /// [`Self::push_snapshot`] of an owned frame, which declares the default
    /// number of tokens and its own width.
    pub fn push_frame(&mut self, frame: &CompressedFrame<T>) -> (result: Result<bool, IngestError>)
        requires
            old(self).wf(),
        ensures
            final(self).wf(),
            final(self).clock() == old(self).clock(),
            ({
                let declared = FrameShape {
                    tokens: IngestConfig::TOKENS_PER_FRAME,
                    dim: frame.dimensions,
                };
                &&& result is Ok <==> guard::admissible(
                    frame.token_data@,
                    old(self)@.shape,
                    declared,
                )
                &&& result matches Ok(evicted) ==> {
                    &&& exists|arrival: Span|
                        {
                            &&& old(self).clock().reads(arrival)
                            &&& final(self)@ == #[trigger] old(self)@.pushed(
                                frame.token_data@,
                                frame.timestamp,
                                arrival,
                            )
                        }
                    &&& evicted == (old(self)@.frames.len() == old(self)@.capacity)
                }
                &&& result matches Err(error) ==> {
                    &&& guard::rejected_with(
                        frame.token_data@,
                        old(self)@.shape,
                        declared,
                        error,
                    )
                    &&& *final(self) == *old(self)
                }
            }),
    {
        self.push_snapshot(
            frame.token_data.as_slice(),
            frame.timestamp,
            FrameShape::for_target(frame.dimensions),
        )
    }

    /// The reading of the cache's clock.
    pub(crate) fn now(&self) -> (reading: Span)
        ensures
            self.clock().reads(reading),
            reading.within_duration(),
    {
        self.clock.read()
    }

    /// What the cache remembers of the frame at `position`.
    fn meta_at(&self, position: usize) -> (meta: FrameMeta)
        requires
            self.wf(),
            position < self.retained,
        ensures
            meta == self@.frames[position as int].meta,
            meta == self@.metas()[position as int],
    {
        let slot: usize = self.slot_of(position);
        assert(self@.frames[position as int] == self.frame(position as int));
        self.meta[slot].unwrap()
    }

    /// The tokens of the frame at `position`.
    fn tokens_at(&self, position: usize) -> (tokens: &[T])
        requires
            self.wf(),
            position < self.retained,
        ensures
            tokens@ == self@.frames[position as int].tokens,
    {
        let slot: usize = self.slot_of(position);
        proof {
            lemma_slot_fits(slot as int, self.frame_len as int, self.slots() as int);
            assert(self@.frames[position as int] == self.frame(position as int));
        }
        let start: usize = slot * self.frame_len;
        vstd::slice::slice_subrange(self.tokens.as_slice(), start, start + self.frame_len)
    }

    /// How many retained frames are older than `limit`.
    fn count_stale(&self, limit: Option<Span>, now: Span) -> (count: usize)
        requires
            self.wf(),
        ensures
            count == selection::stale_count(self@.metas(), limit, now),
            count <= self@.frames.len(),
    {
        let ghost metas = self@.metas();
        let ghost stale = |meta: FrameMeta| !selection::fresh(meta, limit, now);
        let mut count: usize = 0;
        let mut i: usize = 0;
        assert(metas.take(0) =~= Seq::empty());
        proof {
            reveal(Seq::filter);
        }
        while i < self.retained
            invariant
                self.wf(),
                i <= self.retained,
                self.retained == metas.len(),
                metas == self@.metas(),
                stale == (|meta: FrameMeta| !selection::fresh(meta, limit, now)),
                count <= i,
                count == metas.take(i as int).filter(stale).len(),
            decreases self.retained - i,
        {
            proof {
                reveal(Seq::filter);
                assert(metas.take(i + 1).drop_last() =~= metas.take(i as int));
            }
            if !self.meta_at(i).is_fresh(limit, now) {
                count = count + 1;
            }
            i = i + 1;
        }
        assert(metas.take(i as int) =~= metas);
        count
    }

    /// How many frames an export under `policy` takes.
    fn count_taken(&self, policy: &ExportPolicy, limit: Option<Span>, now: Span) -> (count: usize)
        requires
            self.wf(),
        ensures
            count == selection::selection(self@.metas(), *policy, limit, now).len(),
            count <= self@.frames.len(),
    {
        let ghost metas = self@.metas();
        let ghost total = selection::selection(metas, *policy, limit, now).len();
        let mut count: usize = 0;
        let mut end: usize = self.retained;
        let mut next: Option<CaptureTimestamp> = None;
        while end > 0 && count < policy.max_frames
            invariant
                self.wf(),
                metas == self@.metas(),
                metas.len() == self.retained,
                end <= self.retained,
                count <= self.retained - end,
                count <= policy.max_frames,
                total == count + selection::taken_below(
                    metas,
                    *policy,
                    limit,
                    now,
                    end as int,
                    (policy.max_frames - count) as nat,
                    next,
                ).len(),
            decreases end,
        {
            let meta = self.meta_at(end - 1);
            if policy.decide(&meta, self.retained - end, next, limit, now) {
                count = count + 1;
                next = Some(meta.capture);
            }
            end = end - 1;
        }
        count
    }

    /// [`Self::export_with`], made when the cache's clock reads `now`.
    pub fn export_with_at(
        &self,
        out: &mut Vec<T>,
        policy: &ExportPolicy,
        now: Span,
    ) -> (outcome: ExportOutcome)
        requires
            self.wf(),
        ensures
            self@.exported_with(*policy, now, final(out)@, outcome),
    {
        let limit = selection::tightest_limit(self.bound, policy.max_age);
        let frames: usize = self.count_taken(policy, limit, now);
        proof {
            lemma_blocks_fit(frames as int, self.frame_len as int, self.slots() as int);
        }
        let total: usize = frames * self.frame_len;
        out.clear();
        out.reserve(total);
        while out.len() < total
            invariant
                out@.len() <= total,
            decreases total - out@.len(),
        {
            out.push(T::default_element());
        }
        self.write_taken(out, policy, limit, now, frames);
        ExportOutcome {
            frames,
            retained: self.retained,
            excluded_stale: self.count_stale(limit, now),
        }
    }

    /// Writes the `frames` frames that an export under `policy` takes over
    /// `out`, from the newest back, each to its place among the oldest-first
    /// frames.
    fn write_taken(
        &self,
        out: &mut Vec<T>,
        policy: &ExportPolicy,
        limit: Option<Span>,
        now: Span,
        frames: usize,
    )
        requires
            self.wf(),
            frames == selection::selection(self@.metas(), *policy, limit, now).len(),
            frames <= self@.frames.len(),
            old(out)@.len() == frames * self.frame_len,
        ensures
            final(out)@ == self@.payload(
                selection::selection(self@.metas(), *policy, limit, now),
            ),
    {
        let ghost metas = self@.metas();
        let ghost taken = selection::selection(metas, *policy, limit, now);
        let mut left: usize = frames;
        let mut end: usize = self.retained;
        let mut next: Option<CaptureTimestamp> = None;
        assert(taken.take(frames as int) =~= taken);
        assert(self@.blocks(taken.skip(frames as int)) =~= Seq::empty());
        while end > 0 && left > 0
            invariant
                self.wf(),
                metas == self@.metas(),
                metas.len() == self.retained,
                taken.len() == frames,
                end <= self.retained,
                left <= frames <= self.retained,
                frames - left <= policy.max_frames,
                out@.len() == frames * self.frame_len,
                taken.take(left as int) == selection::taken_below(
                    metas,
                    *policy,
                    limit,
                    now,
                    end as int,
                    (policy.max_frames - (frames - left)) as nat,
                    next,
                ),
                out@.skip(left * self.frame_len) == self@.payload(taken.skip(left as int)),
            decreases end,
        {
            let meta = self.meta_at(end - 1);
            if policy.decide(&meta, self.retained - end, next, limit, now) {
                let tokens = self.tokens_at(end - 1);
                proof {
                    lemma_slot_fits(left - 1, self.frame_len as int, frames as int);
                    lemma_blocks_fit(frames as int, self.frame_len as int, self.slots() as int);
                }
                let ghost before = out@;
                copy_block(out, (left - 1) * self.frame_len, tokens);
                proof {
                    let rest = taken.skip(left as int);
                    let grown = taken.skip(left - 1);
                    let blocks = self@.blocks(grown);
                    assert(taken.take(left as int).last() == end - 1);
                    assert(taken.take(left as int).drop_last() =~= taken.take(left - 1));
                    assert(blocks.drop_first() =~= self@.blocks(rest));
                    assert(blocks.first() == tokens@);
                    assert(out@.skip((left - 1) * self.frame_len) =~= tokens@ + before.skip(
                        left * self.frame_len,
                    ));
                }
                left = left - 1;
                next = Some(meta.capture);
            }
            end = end - 1;
        }
        assert(taken.take(left as int).len() == left);
        assert(left == 0);
        assert(left * self.frame_len == 0) by (nonlinear_arith)
            requires
                left == 0,
        ;
        assert(taken.skip(0) =~= taken);
        assert(out@.skip(0) =~= out@);
    }
}

impl<T: TokenElement> IngestRingBuffer<T> {
    /// Writes the frames that `policy` selects, oldest frame first, into `out`.
    ///
    /// `out` is cleared and refilled. Reuse one buffer across calls and this
    /// performs no allocation; size it with [`Self::window_capacity`].
    ///
    /// The staleness bound of the cache applies beside the policy's own age
    /// limit: a policy can narrow it and never widen it. Ages are measured
    /// with the cache's clock.
    pub fn export_with(&self, out: &mut Vec<T>, policy: &ExportPolicy) -> (outcome: ExportOutcome)
        requires
            self.wf(),
        ensures
            exists|now: Span|
                {
                    &&& self.clock().reads(now)
                    &&& #[trigger] self@.exported_with(*policy, now, final(out)@, outcome)
                },
            self@.limit(*policy) is None ==> forall|now: Span| #[trigger]
                self@.exported_with(*policy, now, final(out)@, outcome),
    {
        let now = self.clock.read();
        let outcome = self.export_with_at(out, policy, now);
        proof {
            if self@.limit(*policy) is None {
                assert forall|other: Span| #[trigger]
                    self@.exported_with(*policy, other, out@, outcome) by {
                    window::law_export_without_limit_ignores_clock(
                        self@,
                        *policy,
                        now,
                        other,
                        out@,
                        outcome,
                    );
                }
            }
        }
        outcome
    }

    /// Writes the retained window, oldest frame first, into `out`.
    ///
    /// `out` is cleared and refilled. Reuse one buffer across calls and this
    /// performs no allocation; size it with [`Self::window_capacity`]. Frames
    /// beyond the staleness bound of the cache are left out.
    pub fn export_into(&self, out: &mut Vec<T>) -> (outcome: ExportOutcome)
        requires
            self.wf(),
        ensures
            exists|now: Span|
                {
                    &&& self.clock().reads(now)
                    &&& #[trigger] self@.exported_all(now, final(out)@, outcome)
                },
            self@.bound is None ==> {
                &&& final(out)@ == self@.frames.map_values(|frame: Frame<T>| frame.tokens).flatten()
                &&& outcome == (ExportOutcome {
                    frames: self@.frames.len() as usize,
                    retained: self@.frames.len() as usize,
                    excluded_stale: 0,
                })
            },
    {
        let now = self.clock.read();
        self.export_into_at(out, now)
    }

    /// [`Self::export_into`], made when the cache's clock reads `now`.
    pub fn export_into_at(&self, out: &mut Vec<T>, now: Span) -> (outcome: ExportOutcome)
        requires
            self.wf(),
        ensures
            self@.exported_all(now, final(out)@, outcome),
            self@.bound is None ==> {
                &&& final(out)@ == self@.frames.map_values(|frame: Frame<T>| frame.tokens).flatten()
                &&& outcome == (ExportOutcome {
                    frames: self@.frames.len() as usize,
                    retained: self@.frames.len() as usize,
                    excluded_stale: 0,
                })
            },
    {
        let outcome = self.export_with_at(out, &ExportPolicy::all(), now);
        proof {
            window::law_an_unrestricted_policy_exports_every_fresh_frame(self@, now, out@, outcome);
        }
        outcome
    }

    /// Allocating convenience wrapper around [`Self::export_into`].
    ///
    /// Allocates a buffer sized to the retained window on every call. Prefer
    /// [`Self::export_into`] on any path that runs more than once.
    pub fn export_linearized_payload(&self) -> (payload: Vec<T>)
        requires
            self.wf(),
        ensures
            exists|now: Span, outcome: ExportOutcome|
                {
                    &&& self.clock().reads(now)
                    &&& #[trigger] self@.exported_all(now, payload@, outcome)
                },
            self@.bound is None ==> payload@ == self@.frames.map_values(
                |frame: Frame<T>| frame.tokens,
            ).flatten(),
    {
        proof {
            lemma_blocks_fit(self.retained as int, self.frame_len as int, self.slots() as int);
        }
        let mut out: Vec<T> = Vec::with_capacity(self.retained * self.frame_len);
        let outcome = self.export_into(&mut out);
        out
    }
}

impl<T: TokenElement> IngestRingBuffer<T> {
    /// [`Self::export_matching`], made when the cache's clock reads `now`.
    pub fn export_matching_at<F: Fn(&FrameMeta) -> bool>(
        &self,
        out: &mut Vec<T>,
        predicate: F,
        now: Span,
    ) -> (outcome: ExportOutcome)
        requires
            self.wf(),
            forall|meta: FrameMeta| #[trigger] call_requires(predicate, (&meta,)),
        ensures
            exists|verdicts: Seq<bool>|
                {
                    &&& verdicts_of(predicate, self@, now, verdicts)
                    &&& #[trigger] self@.exported_matching(verdicts, now, final(out)@, outcome)
                },
    {
        let limit = self.bound;
        let ghost mut verdicts: Seq<bool> = Seq::empty();
        let mut frames: usize = 0;
        let mut i: usize = 0;
        proof {
            lemma_blocks_fit(self.retained as int, self.frame_len as int, self.slots() as int);
        }
        out.clear();
        out.reserve(self.retained * self.frame_len);
        assert(self@.blocks(
            window::positions_where(0, self@.fresh_and(now, window::accepted_by(verdicts))),
        ) =~= Seq::empty());
        while i < self.retained
            invariant
                self.wf(),
                self.retained == self@.frames.len(),
                limit == self@.bound,
                forall|meta: FrameMeta| #[trigger] call_requires(predicate, (&meta,)),
                i <= self.retained,
                frames <= i,
                verdicts.len() == i,
                forall|j: int|
                    0 <= j < i && selection::fresh(self@.frames[j].meta, limit, now)
                        ==> call_ensures(
                        predicate,
                        (&self@.frames[j].meta,),
                        #[trigger] verdicts[j],
                    ),
                frames == window::positions_where(
                    i as nat,
                    self@.fresh_and(now, window::accepted_by(verdicts)),
                ).len(),
                out@ == self@.payload(
                    window::positions_where(i as nat, self@.fresh_and(now, window::accepted_by(verdicts))),
                ),
            decreases self.retained - i,
        {
            let meta = self.meta_at(i);
            let mut verdict: bool = false;
            if meta.is_fresh(limit, now) {
                verdict = predicate(&meta);
            }
            let ghost longer = verdicts.push(verdict);
            let ghost chosen = window::positions_where(
                i as nat,
                self@.fresh_and(now, window::accepted_by(verdicts)),
            );
            proof {
                window::lemma_positions_where_agree(
                    i as nat,
                    self@.fresh_and(now, window::accepted_by(verdicts)),
                    self@.fresh_and(now, window::accepted_by(longer)),
                );
            }
            if verdict {
                let tokens = self.tokens_at(i);
                append_block(out, tokens);
                frames = frames + 1;
                proof {
                    assert(self@.blocks(chosen.push(i as int)) =~= self@.blocks(chosen).push(
                        tokens@,
                    ));
                    self@.blocks(chosen).lemma_flatten_push(tokens@);
                }
            }
            proof {
                verdicts = longer;
            }
            i = i + 1;
        }
        let outcome = ExportOutcome {
            frames,
            retained: self.retained,
            excluded_stale: self.count_stale(limit, now),
        };
        assert(verdicts_of(predicate, self@, now, verdicts));
        assert(self@.exported_matching(verdicts, now, out@, outcome));
        outcome
    }

    /// Writes the frames that `predicate` accepts, oldest frame first, into
    /// `out`, which is cleared and refilled.
    ///
    /// Frames beyond the staleness bound of the cache are left out, whatever
    /// the predicate says of them.
    pub fn export_matching<F: Fn(&FrameMeta) -> bool>(
        &self,
        out: &mut Vec<T>,
        predicate: F,
    ) -> (outcome: ExportOutcome)
        requires
            self.wf(),
            forall|meta: FrameMeta| #[trigger] call_requires(predicate, (&meta,)),
        ensures
            exists|now: Span, verdicts: Seq<bool>|
                {
                    &&& self.clock().reads(now)
                    &&& verdicts_of(predicate, self@, now, verdicts)
                    &&& #[trigger] self@.exported_matching(verdicts, now, final(out)@, outcome)
                },
    {
        let now = self.clock.read();
        self.export_matching_at(out, predicate, now)
    }

    /// [`Self::export_around`], made when the cache's clock reads `now`.
    pub fn export_around_at(
        &self,
        out: &mut Vec<T>,
        event: CaptureTimestamp,
        before: Span,
        after: Span,
        now: Span,
    ) -> (outcome: ExportOutcome)
        requires
            self.wf(),
        ensures
            self@.exported_around(event, before, after, now, final(out)@, outcome),
    {
        let around = |meta: &FrameMeta| -> (result: bool)
            ensures
                result == window::captured_around(*meta, event, before, after),
            { was_captured_around(meta, event, before, after) };
        let outcome = self.export_matching_at(out, around, now);
        proof {
            let verdicts = choose|verdicts: Seq<bool>|
                {
                    &&& verdicts_of(around, self@, now, verdicts)
                    &&& #[trigger] self@.exported_matching(verdicts, now, out@, outcome)
                };
            let answered = self@.fresh_and(now, window::accepted_by(verdicts));
            let within = self@.fresh_and(now, self@.around(event, before, after));
            assert forall|i: int| 0 <= i < self@.frames.len() implies #[trigger] answered(i)
                == within(i) by {
                let verdict = verdicts[i];
            }
            window::lemma_positions_where_agree(self@.frames.len(), answered, within);
        }
        outcome
    }

    /// Writes the frames captured at most `before` earlier than `event` and at
    /// most `after` later, oldest frame first, into `out`, which is cleared
    /// and refilled.
    ///
    /// An event that no retained frame was captured around yields nothing
    /// rather than the nearest frames, which would silently misattribute
    /// context. Frames beyond the staleness bound of the cache are left out.
    pub fn export_around(
        &self,
        out: &mut Vec<T>,
        event: CaptureTimestamp,
        before: Span,
        after: Span,
    ) -> (outcome: ExportOutcome)
        requires
            self.wf(),
        ensures
            exists|now: Span|
                {
                    &&& self.clock().reads(now)
                    &&& #[trigger] self@.exported_around(
                        event,
                        before,
                        after,
                        now,
                        final(out)@,
                        outcome,
                    )
                },
            self@.bound is None ==> forall|now: Span| #[trigger]
                self@.exported_around(event, before, after, now, final(out)@, outcome),
    {
        let now = self.clock.read();
        let outcome = self.export_around_at(out, event, before, after, now);
        proof {
            if self@.bound is None {
                assert forall|other: Span| #[trigger]
                    self@.exported_around(event, before, after, other, out@, outcome) by {
                    window::law_event_export_without_bound_ignores_clock(
                        self@,
                        event,
                        before,
                        after,
                        now,
                        other,
                        out@,
                        outcome,
                    );
                }
            }
        }
        outcome
    }
}

/// Whether the frame was captured at most `before` earlier than the event and
/// at most `after` later.
fn was_captured_around(
    meta: &FrameMeta,
    event: CaptureTimestamp,
    before: Span,
    after: Span,
) -> (result: bool)
    ensures
        result == window::captured_around(*meta, event, before, after),
        meta.capture.nanos <= event.nanos ==> (result <==> event.nanos - meta.capture.nanos
            <= before.nanos),
        meta.capture.nanos > event.nanos ==> (result <==> meta.capture.nanos - event.nanos
            <= after.nanos),
{
    if meta.capture.nanos <= event.nanos {
        (event.nanos - meta.capture.nanos) as u128 <= before.nanos
    } else {
        (meta.capture.nanos - event.nanos) as u128 <= after.nanos
    }
}

impl<T: TokenElement> IngestRingBuffer<T> {
    /// A cache of `capacity` frames in the default geometry for a model of
    /// width `target_dim`.
    pub fn with_capacity(target_dim: usize, capacity: usize) -> (cache: Self)
        requires
            0 < target_dim,
            0 < capacity,
            IngestConfig::TOKENS_PER_FRAME * target_dim * capacity <= usize::MAX,
        ensures
            cache.wf(),
            cache.clock().started(),
            cache@ == Window::<T>::empty(
                FrameShape { tokens: IngestConfig::TOKENS_PER_FRAME, dim: target_dim },
                capacity as nat,
            ),
    {
        Self::new(FrameShape::for_target(target_dim), capacity)
    }

    /// Drops every retained frame and overwrites the token storage, so that
    /// nothing of them stays resident. Sequence numbers go on, and the cache
    /// stays usable without a new allocation.
    pub fn clear(&mut self)
        requires
            old(self).wf(),
        ensures
            final(self).wf(),
            final(self).clock() == old(self).clock(),
            final(self)@ == old(self)@.cleared(),
            final(self).store().len() == old(self).store().len(),
            forall|i: int|
                0 <= i < final(self).store().len() ==> #[trigger] final(self).store()[i]
                    == T::zero(),
    {
        let mut i: usize = 0;
        let ghost before = *self;
        while i < self.tokens.len()
            invariant
                i <= self.tokens@.len(),
                self.tokens@.len() == before.tokens@.len(),
                forall|j: int| 0 <= j < i ==> self.tokens@[j] == T::zero(),
                *self == (IngestRingBuffer { tokens: self.tokens, ..before }),
            decreases self.tokens@.len() - i,
        {
            self.tokens.set(i, T::default_element());
            i = i + 1;
        }
        let mut s: usize = 0;
        while s < self.meta.len()
            invariant
                s <= self.meta@.len(),
                self.meta@.len() == before.meta@.len(),
                self.tokens@.len() == before.tokens@.len(),
                forall|j: int| 0 <= j < self.tokens@.len() ==> self.tokens@[j] == T::zero(),
                forall|j: int| 0 <= j < s ==> self.meta@[j] is None,
                *self == (IngestRingBuffer { tokens: self.tokens, meta: self.meta, ..before }),
            decreases self.meta@.len() - s,
        {
            self.meta.set(s, None);
            s = s + 1;
        }
        self.oldest = 0;
        self.retained = 0;
        proof {
            assert forall|slot: int| 0 <= slot < self.slots() implies #[trigger] self.blank(
                slot,
            ) by {
                lemma_slot_fits(slot, self.frame_len as int, self.slots() as int);
            }
            assert(self@ =~= before@.cleared());
        }
    }

    /// What the cache remembers of the retained frames, oldest first.
    pub fn frame_metadata(&self) -> (metas: Vec<FrameMeta>)
        requires
            self.wf(),
        ensures
            metas@ == self@.metas(),
            metas@.len() == self@.frames.len(),
            forall|i: int|
                0 <= i < metas@.len() ==> #[trigger] metas@[i] == self@.frames[i].meta,
    {
        let mut metas: Vec<FrameMeta> = Vec::with_capacity(self.retained);
        let mut i: usize = 0;
        while i < self.retained
            invariant
                self.wf(),
                i <= self.retained,
                self.retained == self@.metas().len(),
                metas@ =~= self@.metas().take(i as int),
            decreases self.retained - i,
        {
            metas.push(self.meta_at(i));
            i = i + 1;
        }
        metas
    }

    /// How long ago the newest retained frame arrived, by a clock that reads
    /// `now`; `None` while nothing is retained.
    pub fn newest_age_at(&self, now: Span) -> (result: Option<Span>)
        requires
            self.wf(),
        ensures
            result is Some <==> self@.frames.len() > 0,
            result matches Some(span) ==> {
                let arrival = self@.frames[self@.frames.len() - 1].meta.arrival;
                &&& span.nanos == selection::age(self@.frames.last().meta, now)
                &&& span.nanos == if now.nanos > arrival.nanos {
                    now.nanos - arrival.nanos
                } else {
                    0
                }
            },
    {
        if self.retained == 0 {
            None
        } else {
            Some(self.meta_at(self.retained - 1).age_at(now))
        }
    }

    /// How long ago the newest retained frame arrived; `None` while nothing is
    /// retained.
    pub fn newest_age(&self) -> (result: Option<Span>)
        requires
            self.wf(),
        ensures
            result is Some <==> self@.frames.len() > 0,
            result matches Some(span) ==> {
                &&& span.within_duration()
                &&& exists|now: Span|
                    {
                        &&& self.clock().reads(now)
                        &&& span.nanos == #[trigger] selection::age(
                            self@.frames.last().meta,
                            now,
                        )
                    }
            },
    {
        let now = self.clock.read();
        self.newest_age_at(now)
    }

    /// Sets the age beyond which no export writes a frame, whatever its caller
    /// asks for; `None` is no bound.
    pub fn set_staleness_bound(&mut self, bound: Option<Span>)
        requires
            old(self).wf(),
        ensures
            final(self).wf(),
            final(self).clock() == old(self).clock(),
            final(self)@ == (Window { bound, ..old(self)@ }),
            final(self).store() == old(self).store(),
    {
        let ghost before = *self;
        self.bound = bound;
        proof {
            assert forall|i: int| 0 <= i < self.retained implies #[trigger] self.frame(i)
                == before.frame(i) by {}
            assert(self@.frames =~= before@.frames);
            assert forall|slot: int|
                0 <= slot < self.slots() && self.distance(slot)
                    >= self.retained implies #[trigger] self.blank(slot) by {
                assert(before.blank(slot));
            }
        }
    }

    /// The age beyond which no export writes a frame.
    pub fn staleness_bound(&self) -> (bound: Option<Span>)
        ensures
            bound == self@.bound,
    {
        self.bound
    }

    /// Frames currently retained.
    pub fn len(&self) -> (len: usize)
        requires
            self.wf(),
        ensures
            len == self@.frames.len(),
    {
        self.retained
    }

    /// True while no frame is retained.
    pub fn is_empty(&self) -> (result: bool)
        requires
            self.wf(),
        ensures
            result == (self@.frames.len() == 0),
    {
        self.retained == 0
    }

    /// Most frames that are retained at a time.
    pub fn capacity(&self) -> (capacity: usize)
        requires
            self.wf(),
        ensures
            capacity == self@.capacity,
    {
        self.meta.len()
    }

    /// Geometry that this cache validates against.
    pub fn shape(&self) -> (shape: FrameShape)
        ensures
            shape == self@.shape,
    {
        self.shape
    }

    /// Elements in one frame.
    pub fn frame_len(&self) -> (len: usize)
        requires
            self.wf(),
        ensures
            len == self@.shape.elements(),
            len == self@.shape.tokens * self@.shape.dim,
    {
        self.frame_len
    }

    /// Elements in a full window. Use this to size an [`Self::export_into`] buffer.
    pub fn window_capacity(&self) -> (elements: usize)
        requires
            self.wf(),
        ensures
            elements == self@.shape.elements() * self@.capacity,
            elements == self@.shape.tokens * self@.shape.dim * self@.capacity,
    {
        proof {
            assert(self.frame_len * self.slots() == self.slots() * self.frame_len)
                by (nonlinear_arith);
        }
        self.frame_len * self.meta.len()
    }

    /// Target model width this cache validates against.
    pub fn target_dim(&self) -> (dim: usize)
        ensures
            dim == self@.shape.dim,
    {
        self.shape.dim
    }

    /// Total frames accepted since construction, including evicted and cleared
    /// ones; the count wraps around. It is the sequence number of the next frame.
    pub fn frames_accepted(&self) -> (count: u64)
        ensures
            count == self@.next_sequence,
    {
        self.head
    }

    /// A cache holds a valid window at all times, and its storage has the size
    /// of a full window for as long as it lives.
    pub proof fn law_the_window_is_valid(self)
        requires
            self.wf(),
        ensures
            self@.valid(),
            self@.shape.elements() > 0,
            self@.capacity <= usize::MAX,
            self.store().len() == self@.shape.elements() * self@.capacity,
    {
        assert(self.frame_len * self.slots() == self.slots() * self.frame_len)
            by (nonlinear_arith);
        assert(self.shape.elements() > 0) by (nonlinear_arith)
            requires
                0 < self.shape.tokens,
                0 < self.shape.dim,
        ;
    }

    /// What the contracts call the store is the whole of the token storage, and
    /// what they call the clock is the clock that the cache reads.
    proof fn law_the_store_and_the_clock_are_the_caches_own(self)
        ensures
            self.store() == self.tokens@,
            self.clock() == self.clock,
    {
    }

    /// Everything that is resident in the token storage belongs to a retained
    /// frame; the rest of the storage is blank.
    pub proof fn law_only_retained_frames_are_resident(self, i: int)
        requires
            self.wf(),
            0 <= i < self.store().len(),
        ensures
            self.store()[i] == T::zero() || exists|position: int, j: int|
                {
                    &&& 0 <= position < self@.frames.len()
                    &&& 0 <= j < self@.shape.elements()
                    &&& self.store()[i] == #[trigger] self@.frames[position].tokens[j]
                },
    {
        self.law_the_store_and_the_clock_are_the_caches_own();
        let frame_len = self.frame_len as int;
        lemma_blocks_fit(self.retained as int, frame_len, self.slots() as int);
        vstd::arithmetic::div_mod::lemma_fundamental_div_mod(i, frame_len);
        let slot = i / frame_len;
        let j = i % frame_len;
        assert(slot * frame_len + j == i) by (nonlinear_arith)
            requires
                i == frame_len * slot + j,
        ;
        assert(0 <= slot < self.slots()) by (nonlinear_arith)
            requires
                0 < frame_len,
                0 <= j < frame_len,
                slot * frame_len + j == i,
                0 <= i < self.slots() * frame_len,
        ;
        lemma_slot_fits(slot, frame_len, self.slots() as int);
        let position = self.distance(slot);
        if position < self.retained {
            assert(self.slot(position) == slot);
            assert(self@.frames[position] == self.frame(position));
            assert(self@.frames[position].tokens[j] == self.store()[i]);
        } else {
            assert(self.blank(slot));
        }
    }
}

} // verus!
