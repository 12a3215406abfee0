//! The mathematical model of a frame cache: its window of recent frames, and
//! what accepting, clearing and exporting do to it.

use crate::config::FrameShape;
use crate::element::TokenElement;
use crate::frame::FrameMeta;
use crate::guard;
use crate::selection;
use crate::selection::{ExportOutcome, ExportPolicy};
use crate::time::{CaptureTimestamp, Span};
use vstd::prelude::*;

verus! {

/// A retained frame.
#[verifier::ext_equal]
pub struct Frame<T> {
    pub meta: FrameMeta,
    pub tokens: Seq<T>,
}

/// A frame cache as its users see it.
#[verifier::ext_equal]
pub struct Window<T> {
    /// Geometry of every frame.
    pub shape: FrameShape,
    /// Most frames that are retained.
    pub capacity: nat,
    /// Sequence number of the next frame to be accepted.
    pub next_sequence: u64,
    /// Retained frames, oldest first.
    pub frames: Seq<Frame<T>>,
    /// Frames older than this are never exported.
    pub bound: Option<Span>,
}

/// The sequence number `steps` before `sequence`; numbers wrap around.
pub open spec fn sequence_before(sequence: u64, steps: int) -> u64 {
    ((sequence - steps) % 0x1_0000_0000_0000_0000) as u64
}

/// The positions below `count` that satisfy `keep`, ascending.
pub open spec fn positions_where(count: nat, keep: spec_fn(int) -> bool) -> Seq<int>
    decreases count,
{
    if count == 0 {
        Seq::empty()
    } else {
        let rest = positions_where((count - 1) as nat, keep);
        if keep(count - 1) {
            rest.push(count - 1)
        } else {
            rest
        }
    }
}

/// Accepts every position.
pub open spec fn everything() -> spec_fn(int) -> bool {
    |i: int| true
}

/// Accepts the positions with a verdict of `true`.
pub open spec fn accepted_by(verdicts: Seq<bool>) -> spec_fn(int) -> bool {
    |i: int| verdicts[i]
}

/// The frame was captured at most `before` earlier than the event and at most
/// `after` later.
pub open spec fn captured_around(
    meta: FrameMeta,
    event: CaptureTimestamp,
    before: Span,
    after: Span,
) -> bool {
    event.nanos - before.nanos <= meta.capture.nanos <= event.nanos + after.nanos
}

impl<T: TokenElement> Window<T> {
    /// An empty window.
    pub open spec fn empty(shape: FrameShape, capacity: nat) -> Self {
        Window { shape, capacity, next_sequence: 0, frames: Seq::empty(), bound: None }
    }

    /// What holds of every window: it stays within its capacity, its frames
    /// have its geometry and hold finite elements only, and their sequence
    /// numbers run up to the next one without a gap.
    pub open spec fn valid(self) -> bool {
        &&& self.capacity > 0
        &&& self.frames.len() <= self.capacity
        &&& forall|i: int|
            0 <= i < self.frames.len() ==> {
                &&& (#[trigger] self.frames[i]).tokens.len() == self.shape.elements()
                &&& guard::all_finite(self.frames[i].tokens)
                &&& self.frames[i].meta.sequence == sequence_before(
                    self.next_sequence,
                    self.frames.len() - i,
                )
            }
    }

    /// What is known of the retained frames beside their tokens, oldest first.
    pub open spec fn metas(self) -> Seq<FrameMeta> {
        self.frames.map_values(|frame: Frame<T>| frame.meta)
    }

    /// The window after a frame was accepted. Where it was full, the oldest
    /// frame is gone.
    pub open spec fn pushed(
        self,
        tokens: Seq<T>,
        capture: CaptureTimestamp,
        arrival: Span,
    ) -> Self {
        let frame = Frame {
            meta: FrameMeta { capture, arrival, sequence: self.next_sequence },
            tokens,
        };
        let kept = if self.frames.len() == self.capacity {
            self.frames.drop_first()
        } else {
            self.frames
        };
        Window {
            frames: kept.push(frame),
            next_sequence: sequence_before(self.next_sequence, -1),
            ..self
        }
    }

    /// The window after it was cleared. Sequence numbers go on.
    pub open spec fn cleared(self) -> Self {
        Window { frames: Seq::empty(), ..self }
    }

    /// The age limit that holds for an export under `policy`.
    pub open spec fn limit(self, policy: ExportPolicy) -> Option<Span> {
        selection::tightest(self.bound, policy.max_age)
    }

    /// The token blocks at `positions`, in that order.
    pub open spec fn blocks(self, positions: Seq<int>) -> Seq<Seq<T>> {
        positions.map_values(|i: int| self.frames[i].tokens)
    }

    /// The token blocks at `positions`, one after the other.
    pub open spec fn payload(self, positions: Seq<int>) -> Seq<T> {
        self.blocks(positions).flatten()
    }

    /// An export wrote the frames at `positions` and reported `outcome`.
    pub open spec fn exported(
        self,
        positions: Seq<int>,
        limit: Option<Span>,
        now: Span,
        out: Seq<T>,
        outcome: ExportOutcome,
    ) -> bool {
        &&& out == self.payload(positions)
        &&& outcome.frames == positions.len()
        &&& outcome.retained == self.frames.len()
        &&& outcome.excluded_stale == selection::stale_count(self.metas(), limit, now)
    }

    /// An export under `policy`, made when the cache's clock read `now`, wrote
    /// `out` and reported `outcome`.
    pub open spec fn exported_with(
        self,
        policy: ExportPolicy,
        now: Span,
        out: Seq<T>,
        outcome: ExportOutcome,
    ) -> bool {
        let limit = self.limit(policy);
        let positions = selection::selection(self.metas(), policy, limit, now);
        self.exported(positions, limit, now, out, outcome)
    }

    /// The frame at a position is not too old, and `keep` accepts it.
    pub open spec fn fresh_and(self, now: Span, keep: spec_fn(int) -> bool) -> spec_fn(
        int,
    ) -> bool {
        |i: int| selection::fresh(self.frames[i].meta, self.bound, now) && keep(i)
    }

    /// The positions of the frames that are not too old and that `keep` accepts.
    pub open spec fn fresh_where(self, now: Span, keep: spec_fn(int) -> bool) -> Seq<int> {
        positions_where(self.frames.len(), self.fresh_and(now, keep))
    }

    /// An export of every frame that is not too old, made when the cache's
    /// clock read `now`, wrote `out` and reported `outcome`.
    pub open spec fn exported_all(self, now: Span, out: Seq<T>, outcome: ExportOutcome) -> bool {
        self.exported(self.fresh_where(now, everything()), self.bound, now, out, outcome)
    }

    /// An export of the frames with a verdict of `true`, made when the cache's
    /// clock read `now`, wrote `out` and reported `outcome`.
    pub open spec fn exported_matching(
        self,
        verdicts: Seq<bool>,
        now: Span,
        out: Seq<T>,
        outcome: ExportOutcome,
    ) -> bool {
        self.exported(
            self.fresh_where(now, accepted_by(verdicts)),
            self.bound,
            now,
            out,
            outcome,
        )
    }

    /// The frame at a position was captured around `event`.
    pub open spec fn around(self, event: CaptureTimestamp, before: Span, after: Span) -> spec_fn(
        int,
    ) -> bool {
        |i: int| captured_around(self.frames[i].meta, event, before, after)
    }

    /// An export of the frames captured around `event`, made when the cache's
    /// clock read `now`, wrote `out` and reported `outcome`.
    pub open spec fn exported_around(
        self,
        event: CaptureTimestamp,
        before: Span,
        after: Span,
        now: Span,
        out: Seq<T>,
        outcome: ExportOutcome,
    ) -> bool {
        self.exported(
            self.fresh_where(now, self.around(event, before, after)),
            self.bound,
            now,
            out,
            outcome,
        )
    }
}

/// Accepting a frame keeps a window valid.
pub proof fn law_pushing_keeps_a_window_valid<T: TokenElement>(
    window: Window<T>,
    tokens: Seq<T>,
    capture: CaptureTimestamp,
    arrival: Span,
)
    requires
        window.valid(),
        tokens.len() == window.shape.elements(),
        guard::all_finite(tokens),
    ensures
        window.pushed(tokens, capture, arrival).valid(),
{
    let after = window.pushed(tokens, capture, arrival);
    let dropped: int = if window.frames.len() == window.capacity {
        1
    } else {
        0
    };
    assert forall|i: int| 0 <= i < after.frames.len() implies {
        &&& (#[trigger] after.frames[i]).tokens.len() == after.shape.elements()
        &&& guard::all_finite(after.frames[i].tokens)
        &&& after.frames[i].meta.sequence == sequence_before(
            after.next_sequence,
            after.frames.len() - i,
        )
    } by {
        if i < after.frames.len() - 1 {
            assert(after.frames[i] == window.frames[i + dropped]);
        }
    }
}

/// Where no age limit holds, an export does not depend on the clock.
pub proof fn law_export_without_limit_ignores_clock<T: TokenElement>(
    window: Window<T>,
    policy: ExportPolicy,
    now: Span,
    other: Span,
    out: Seq<T>,
    outcome: ExportOutcome,
)
    requires
        window.limit(policy) is None,
        window.exported_with(policy, now, out, outcome),
    ensures
        window.exported_with(policy, other, out, outcome),
{
    selection::law_selection_without_limit_ignores_clock(window.metas(), policy, now, other);
    selection::law_nothing_is_stale_without_a_limit(window.metas(), now);
    selection::law_nothing_is_stale_without_a_limit(window.metas(), other);
}

/// A policy without any restriction takes the positions of the fresh frames.
proof fn lemma_unrestricted_takes_fresh<T: TokenElement>(
    window: Window<T>,
    policy: ExportPolicy,
    now: Span,
    end: int,
    quota: nat,
    next: Option<CaptureTimestamp>,
)
    requires
        policy.stride == 1,
        policy.min_interval is None,
        0 <= end <= window.frames.len(),
        end <= quota,
    ensures
        selection::taken_below(window.metas(), policy, window.bound, now, end, quota, next)
            == positions_where(
            end as nat,
            |i: int| selection::fresh(window.frames[i].meta, window.bound, now),
        ),
    decreases end,
{
    if end > 0 {
        lemma_unrestricted_takes_fresh(
            window,
            policy,
            now,
            end - 1,
            (quota - 1) as nat,
            Some(window.metas()[end - 1].capture),
        );
        lemma_unrestricted_takes_fresh(window, policy, now, end - 1, quota, next);
    }
}

/// Conditions that agree below `count` leave the same positions.
pub proof fn lemma_positions_where_agree(
    count: nat,
    keep: spec_fn(int) -> bool,
    other: spec_fn(int) -> bool,
)
    requires
        forall|i: int| 0 <= i < count ==> #[trigger] keep(i) == other(i),
    ensures
        positions_where(count, keep) == positions_where(count, other),
    decreases count,
{
    if count > 0 {
        lemma_positions_where_agree((count - 1) as nat, keep, other);
    }
}

/// A condition that always holds leaves every position.
pub proof fn lemma_positions_where_all(count: nat, keep: spec_fn(int) -> bool)
    requires
        forall|i: int| 0 <= i < count ==> #[trigger] keep(i),
    ensures
        positions_where(count, keep) == Seq::new(count, |i: int| i),
    decreases count,
{
    if count > 0 {
        lemma_positions_where_all((count - 1) as nat, keep);
    }
    assert(positions_where(count, keep) =~= Seq::new(count, |i: int| i));
}

/// An export under the policy that restricts nothing is an export of every
/// fresh frame, and of the whole window where no bound is set.
pub proof fn law_an_unrestricted_policy_exports_every_fresh_frame<T: TokenElement>(
    window: Window<T>,
    now: Span,
    out: Seq<T>,
    outcome: ExportOutcome,
)
    requires
        window.frames.len() <= usize::MAX,
        window.exported_with(
            ExportPolicy { max_frames: usize::MAX, max_age: None, stride: 1, min_interval: None },
            now,
            out,
            outcome,
        ),
    ensures
        window.exported_all(now, out, outcome),
        window.bound is None ==> {
            &&& out == window.frames.map_values(|frame: Frame<T>| frame.tokens).flatten()
            &&& outcome == (ExportOutcome {
                frames: window.frames.len() as usize,
                retained: window.frames.len() as usize,
                excluded_stale: 0,
            })
        },
{
    let policy = ExportPolicy {
        max_frames: usize::MAX,
        max_age: None,
        stride: 1,
        min_interval: None,
    };
    let count = window.frames.len();
    let is_fresh = |i: int| selection::fresh(window.frames[i].meta, window.bound, now);
    let positions = window.fresh_where(now, everything());
    assert(window.limit(policy) == window.bound);
    lemma_unrestricted_takes_fresh(
        window,
        policy,
        now,
        count as int,
        usize::MAX as nat,
        None,
    );
    lemma_positions_where_agree(
        count,
        is_fresh,
        window.fresh_and(now, everything()),
    );
    if window.bound is None {
        lemma_positions_where_all(count, is_fresh);
        assert(window.blocks(positions) =~= window.frames.map_values(
            |frame: Frame<T>| frame.tokens,
        ));
        selection::law_nothing_is_stale_without_a_limit(window.metas(), now);
    }
}

/// Where no staleness bound is set, an event-correlated export does not depend
/// on the clock.
pub proof fn law_event_export_without_bound_ignores_clock<T: TokenElement>(
    window: Window<T>,
    event: CaptureTimestamp,
    before: Span,
    after: Span,
    now: Span,
    other: Span,
    out: Seq<T>,
    outcome: ExportOutcome,
)
    requires
        window.bound is None,
        window.exported_around(event, before, after, now, out, outcome),
    ensures
        window.exported_around(event, before, after, other, out, outcome),
{
    let around = window.around(event, before, after);
    lemma_positions_where_agree(
        window.frames.len(),
        window.fresh_and(now, around),
        window.fresh_and(other, around),
    );
    selection::law_nothing_is_stale_without_a_limit(window.metas(), now);
    selection::law_nothing_is_stale_without_a_limit(window.metas(), other);
}

/// An accepted block: its tokens, and when it was captured and arrived.
pub struct Arrival<T> {
    pub tokens: Seq<T>,
    pub capture: CaptureTimestamp,
    pub arrival: Span,
}

impl<T: TokenElement> Window<T> {
    /// The window after each of `arrivals` was accepted in turn.
    pub open spec fn pushed_all(self, arrivals: Seq<Arrival<T>>) -> Self
        decreases arrivals.len(),
    {
        if arrivals.len() == 0 {
            self
        } else {
            let last = arrivals.last();
            self.pushed_all(arrivals.drop_last()).pushed(last.tokens, last.capture, last.arrival)
        }
    }

    /// The frames that `arrivals` become when the window accepts them in turn.
    pub open spec fn numbered(self, arrivals: Seq<Arrival<T>>) -> Seq<Frame<T>> {
        arrivals.map(
            |i: int, arrival: Arrival<T>|
                Frame {
                    meta: FrameMeta {
                        capture: arrival.capture,
                        arrival: arrival.arrival,
                        sequence: sequence_before(self.next_sequence, -i),
                    },
                    tokens: arrival.tokens,
                },
        )
    }
}

/// The newest `count` of the items.
pub open spec fn newest<A>(items: Seq<A>, count: nat) -> Seq<A> {
    if items.len() <= count {
        items
    } else {
        items.skip(items.len() - count)
    }
}

/// A window that accepts frames holds the most recent of the frames it had and
/// those it accepted, as many as its capacity, in the order in which they
/// came; the frames it accepts are numbered without a gap.
pub proof fn law_window_holds_the_most_recent<T: TokenElement>(
    window: Window<T>,
    arrivals: Seq<Arrival<T>>,
)
    requires
        window.valid(),
    ensures
        window.pushed_all(arrivals) == (Window {
            frames: newest(window.frames + window.numbered(arrivals), window.capacity),
            next_sequence: sequence_before(window.next_sequence, -arrivals.len()),
            ..window
        }),
    decreases arrivals.len(),
{
    let after = window.pushed_all(arrivals);
    let all = window.frames + window.numbered(arrivals);
    if arrivals.len() == 0 {
        assert(all =~= window.frames);
    } else {
        let earlier = arrivals.drop_last();
        let before = window.pushed_all(earlier);
        let last = window.numbered(arrivals).last();
        law_window_holds_the_most_recent(window, earlier);
        assert(window.numbered(arrivals) =~= window.numbered(earlier).push(last));
        assert(all =~= (window.frames + window.numbered(earlier)).push(last));
        assert(after.frames.last() == last);
        assert(after.frames =~= newest(all, window.capacity));
    }
}

/// A cleared window holds nothing, keeps its set-up, and goes on with the
/// sequence number where it was.
pub proof fn law_clear_keeps_the_sequence<T: TokenElement>(
    window: Window<T>,
    tokens: Seq<T>,
    capture: CaptureTimestamp,
    arrival: Span,
)
    requires
        window.valid(),
    ensures
        window.cleared().valid(),
        window.cleared().frames.len() == 0,
        ({
            let after = window.cleared().pushed(tokens, capture, arrival);
            &&& after.frames.len() == 1
            &&& after.frames[0].tokens == tokens
            &&& after.frames[0].meta.sequence == window.next_sequence
        }),
{
}

/// Blocks of one length, one after the other: how many elements they have.
proof fn lemma_flatten_len<A>(blocks: Seq<Seq<A>>, len: nat)
    requires
        forall|k: int| 0 <= k < blocks.len() ==> (#[trigger] blocks[k]).len() == len,
    ensures
        blocks.flatten().len() == blocks.len() * len,
    decreases blocks.len(),
{
    if blocks.len() == 0 {
        assert(0 * len == 0) by (nonlinear_arith);
    } else {
        let rest = blocks.drop_first();
        assert(forall|k: int| 0 <= k < rest.len() ==> #[trigger] rest[k] == blocks[k + 1]);
        lemma_flatten_len(rest, len);
        assert(blocks[0].len() == len);
        assert(len + (blocks.len() - 1) * len == blocks.len() * len) by (nonlinear_arith);
    }
}

/// Blocks of one length, one after the other: each block is at its place.
proof fn lemma_flatten_block<A>(blocks: Seq<Seq<A>>, len: nat, k: int)
    requires
        forall|l: int| 0 <= l < blocks.len() ==> (#[trigger] blocks[l]).len() == len,
        0 <= k < blocks.len(),
    ensures
        0 <= k * len,
        k * len + len <= blocks.flatten().len(),
        blocks.flatten().subrange(k * len, k * len + len) == blocks[k],
    decreases k,
{
    let rest = blocks.drop_first();
    let flat = blocks.flatten();
    assert(forall|l: int| 0 <= l < rest.len() ==> #[trigger] rest[l] == blocks[l + 1]);
    assert(blocks[0].len() == len);
    if k == 0 {
        assert(0 * len == 0) by (nonlinear_arith);
        assert(flat.subrange(0, len as int) =~= blocks[0]);
    } else {
        lemma_flatten_block(rest, len, k - 1);
        assert((k - 1) * len + len == k * len) by (nonlinear_arith);
        assert(flat.subrange(k * len, k * len + len) =~= rest.flatten().subrange(
            (k - 1) * len,
            (k - 1) * len + len,
        ));
        assert(rest[k - 1] == blocks[k]);
    }
}

/// An export is made of whole frames: it holds, one after the other and each
/// as it was pushed, the token blocks of the frames that were selected.
pub proof fn law_export_gives_back_the_frames<T: TokenElement>(
    window: Window<T>,
    positions: Seq<int>,
    k: int,
)
    requires
        window.valid(),
        forall|l: int|
            0 <= l < positions.len() ==> 0 <= #[trigger] positions[l] < window.frames.len(),
    ensures
        window.payload(positions).len() == positions.len() * window.shape.elements(),
        0 <= k < positions.len() ==> window.payload(positions).subrange(
            k * window.shape.elements(),
            k * window.shape.elements() + window.shape.elements(),
        ) == window.frames[positions[k]].tokens,
{
    let blocks = window.blocks(positions);
    assert forall|l: int| 0 <= l < blocks.len() implies (#[trigger] blocks[l]).len()
        == window.shape.elements() by {
        assert(0 <= positions[l] < window.frames.len());
    }
    lemma_flatten_len(blocks, window.shape.elements());
    if 0 <= k < positions.len() {
        lemma_flatten_block(blocks, window.shape.elements(), k);
        assert(blocks[k] == window.frames[positions[k]].tokens);
    }
}

/// The positions below `count` that satisfy a condition: which they are, and
/// that they ascend.
pub proof fn lemma_positions_where(count: nat, keep: spec_fn(int) -> bool)
    ensures
        positions_where(count, keep).len() <= count,
        forall|k: int|
            0 <= k < positions_where(count, keep).len() ==> {
                &&& 0 <= #[trigger] positions_where(count, keep)[k] < count
                &&& keep(positions_where(count, keep)[k])
            },
        forall|k: int, l: int|
            0 <= k < l < positions_where(count, keep).len() ==> (#[trigger] positions_where(
                count,
                keep,
            )[k]) < #[trigger] positions_where(count, keep)[l],
        forall|i: int|
            0 <= i < count && #[trigger] keep(i) ==> positions_where(count, keep).contains(i),
    decreases count,
{
    if count > 0 {
        let rest = positions_where((count - 1) as nat, keep);
        let all = positions_where(count, keep);
        lemma_positions_where((count - 1) as nat, keep);
        assert forall|i: int| 0 <= i < count && #[trigger] keep(i) implies all.contains(i) by {
            if i == count - 1 {
                assert(all[all.len() - 1] == i);
            } else {
                assert(rest.contains(i));
                let at = choose|at: int| 0 <= at < rest.len() && rest[at] == i;
                assert(all[at] == i);
            }
        }
    }
}

/// A frame that was accepted and has not become too old is the last one of the
/// window that is exported next, as it was pushed.
pub proof fn law_a_pushed_frame_is_exported<T: TokenElement>(
    window: Window<T>,
    tokens: Seq<T>,
    capture: CaptureTimestamp,
    arrival: Span,
    now: Span,
    out: Seq<T>,
    outcome: ExportOutcome,
)
    requires
        window.valid(),
        guard::admissible(tokens, window.shape, window.shape),
        window.pushed(tokens, capture, arrival).exported_all(now, out, outcome),
        selection::fresh(
            window.pushed(tokens, capture, arrival).frames.last().meta,
            window.bound,
            now,
        ),
    ensures
        outcome.frames >= 1,
        out.len() == outcome.frames * window.shape.elements(),
        out.len() >= window.shape.elements(),
        out.skip(out.len() - window.shape.elements()) == tokens,
{
    let after = window.pushed(tokens, capture, arrival);
    let len = window.shape.elements();
    law_pushing_keeps_a_window_valid(window, tokens, capture, arrival);
    let keep = after.fresh_and(now, everything());
    let positions = after.fresh_where(now, everything());
    lemma_positions_where(after.frames.len(), keep);
    assert(keep(after.frames.len() - 1));
    assert(positions.last() == after.frames.len() - 1);
    let count = positions.len();
    law_export_gives_back_the_frames(after, positions, count - 1);
    assert((count - 1) * len + len == count * len) by (nonlinear_arith);
    assert((count - 1) * len >= 0) by (nonlinear_arith)
        requires
            count >= 1,
            len >= 0,
    ;
    assert(out.skip(out.len() - len) =~= out.subrange(
        (count - 1) * len,
        (count - 1) * len + len,
    ));
}

/// Whatever a caller asks for, no export takes a frame beyond the staleness
/// bound of the cache, nor one beyond the caller's own age limit.
pub proof fn law_the_bound_holds_for_every_policy<T: TokenElement>(
    window: Window<T>,
    policy: ExportPolicy,
    now: Span,
    k: int,
)
    requires
        0 <= k < selection::selection(
            window.metas(),
            policy,
            window.limit(policy),
            now,
        ).len(),
    ensures
        ({
            let taken = selection::selection(window.metas(), policy, window.limit(policy), now);
            &&& 0 <= taken[k] < window.frames.len()
            &&& selection::fresh(window.frames[taken[k]].meta, window.bound, now)
            &&& selection::fresh(window.frames[taken[k]].meta, policy.max_age, now)
        }),
{
    let limit = window.limit(policy);
    let taken = selection::selection(window.metas(), policy, limit, now);
    selection::law_selection_is_ordered(window.metas(), policy, limit, now);
    selection::law_selection_obeys_the_policy(window.metas(), policy, limit, now, k);
    selection::law_tightest_limit_narrows(
        window.metas()[taken[k]],
        window.bound,
        policy.max_age,
        now,
    );
}

/// The staleness bound holds for event-correlated and predicate exports too:
/// they take, oldest first, exactly the frames within the bound that their
/// condition accepts.
pub proof fn law_the_bound_holds_for_every_condition<T: TokenElement>(
    window: Window<T>,
    now: Span,
    keep: spec_fn(int) -> bool,
    i: int,
)
    requires
        0 <= i < window.frames.len(),
    ensures
        window.fresh_where(now, keep).contains(i) <==> selection::fresh(
            window.frames[i].meta,
            window.bound,
            now,
        ) && keep(i),
        forall|k: int, l: int|
            0 <= k < l < window.fresh_where(now, keep).len() ==> (#[trigger] window.fresh_where(
                now,
                keep,
            )[k]) < #[trigger] window.fresh_where(now, keep)[l],
{
    let condition = window.fresh_and(now, keep);
    lemma_positions_where(window.frames.len(), condition);
    if condition(i) {
        assert(window.fresh_where(now, keep).contains(i));
    }
    if window.fresh_where(now, keep).contains(i) {
        let k = choose|k: int|
            0 <= k < window.fresh_where(now, keep).len() && window.fresh_where(now, keep)[k] == i;
        assert(condition(positions_where(window.frames.len(), condition)[k]));
    }
}

/// An event that no retained frame was captured around exports nothing rather
/// than the nearest frames.
pub proof fn law_an_event_out_of_the_window_exports_nothing<T: TokenElement>(
    window: Window<T>,
    event: CaptureTimestamp,
    before: Span,
    after: Span,
    now: Span,
    out: Seq<T>,
    outcome: ExportOutcome,
)
    requires
        window.exported_around(event, before, after, now, out, outcome),
        forall|i: int|
            0 <= i < window.frames.len() ==> !captured_around(
                (#[trigger] window.frames[i]).meta,
                event,
                before,
                after,
            ),
    ensures
        out.len() == 0,
        outcome.frames == 0,
{
    let condition = window.fresh_and(now, window.around(event, before, after));
    lemma_positions_where(window.frames.len(), condition);
    let positions = positions_where(window.frames.len(), condition);
    if positions.len() > 0 {
        assert(condition(positions[0]));
        assert(!captured_around(window.frames[positions[0]].meta, event, before, after));
    }
    assert(window.blocks(positions).len() == 0);
}

/// The number of stale frames is that of all frames exactly when no frame is
/// fresh.
proof fn lemma_all_frames_stale<T: TokenElement>(
    window: Window<T>,
    limit: Option<Span>,
    now: Span,
)
    ensures
        selection::stale_count(window.metas(), limit, now) == window.frames.len() <==> forall|
            i: int,
        |
            0 <= i < window.frames.len() ==> !selection::fresh(
                (#[trigger] window.frames[i]).meta,
                limit,
                now,
            ),
{
    let metas = window.metas();
    selection::law_all_stale(metas, limit, now);
    if selection::stale_count(metas, limit, now) == metas.len() {
        assert forall|i: int| 0 <= i < window.frames.len() implies !selection::fresh(
            (#[trigger] window.frames[i]).meta,
            limit,
            now,
        ) by {
            assert(metas[i] == window.frames[i].meta);
        }
    } else {
        let i = choose|i: int|
            0 <= i < metas.len() && selection::fresh(#[trigger] metas[i], limit, now);
        assert(window.frames[i].meta == metas[i]);
    }
}

/// What an outcome tells apart. An empty cache is blind and never stale. A
/// cache whose frames are all too old is stale and never blind, and exports
/// nothing. Frames that were written and frames that were too old are
/// different frames.
pub proof fn law_blind_and_stale_are_apart<T: TokenElement>(
    window: Window<T>,
    policy: ExportPolicy,
    now: Span,
    out: Seq<T>,
    outcome: ExportOutcome,
)
    requires
        window.exported_with(policy, now, out, outcome),
    ensures
        outcome.frames + outcome.excluded_stale <= outcome.retained,
        outcome.frames <= policy.max_frames,
        outcome.blind() <==> window.frames.len() == 0,
        !(outcome.blind() && outcome.stale()),
        outcome.blind() || outcome.stale() ==> outcome.frames == 0 && out.len() == 0,
        outcome.stale() <==> {
            &&& window.frames.len() > 0
            &&& forall|i: int|
                0 <= i < window.frames.len() ==> !selection::fresh(
                    (#[trigger] window.frames[i]).meta,
                    window.limit(policy),
                    now,
                )
        },
{
    let metas = window.metas();
    let limit = window.limit(policy);
    selection::law_taken_and_stale_are_apart(metas, policy, limit, now);
    selection::law_selection_is_ordered(metas, policy, limit, now);
    lemma_all_frames_stale(window, limit, now);
    let taken = selection::selection(metas, policy, limit, now);
    if taken.len() == 0 {
        assert(window.blocks(taken).len() == 0);
    }
}

/// A frame is counted as stale, or its position satisfies a condition that
/// holds of fresh frames only, and never both.
proof fn lemma_positions_and_stale<T: TokenElement>(
    window: Window<T>,
    now: Span,
    keep: spec_fn(int) -> bool,
    count: nat,
)
    requires
        count <= window.frames.len(),
    ensures
        positions_where(count, window.fresh_and(now, keep)).len() + selection::stale_count(
            window.metas().take(count as int),
            window.bound,
            now,
        ) <= count,
    decreases count,
{
    reveal(Seq::filter);
    if count > 0 {
        let metas = window.metas();
        assert(metas.take(count as int).drop_last() =~= metas.take(count - 1));
        lemma_positions_and_stale(window, now, keep, (count - 1) as nat);
    }
}

/// What an outcome tells apart holds of the exports that take the frames which
/// a condition accepts too: of every frame, of those that match a predicate,
/// and of those captured around an event.
pub proof fn law_blind_and_stale_are_apart_for_every_condition<T: TokenElement>(
    window: Window<T>,
    now: Span,
    keep: spec_fn(int) -> bool,
    out: Seq<T>,
    outcome: ExportOutcome,
)
    requires
        window.exported(window.fresh_where(now, keep), window.bound, now, out, outcome),
    ensures
        outcome.frames + outcome.excluded_stale <= outcome.retained,
        outcome.blind() <==> window.frames.len() == 0,
        !(outcome.blind() && outcome.stale()),
        outcome.blind() || outcome.stale() ==> outcome.frames == 0 && out.len() == 0,
        outcome.stale() <==> {
            &&& window.frames.len() > 0
            &&& forall|i: int|
                0 <= i < window.frames.len() ==> !selection::fresh(
                    (#[trigger] window.frames[i]).meta,
                    window.bound,
                    now,
                )
        },
{
    let metas = window.metas();
    assert(metas.take(metas.len() as int) =~= metas);
    lemma_positions_and_stale(window, now, keep, window.frames.len());
    lemma_all_frames_stale(window, window.bound, now);
    if outcome.frames == 0 {
        assert(window.blocks(window.fresh_where(now, keep)).len() == 0);
    }
}

/// Every element that is exported is finite.
pub proof fn law_exports_are_finite<T: TokenElement>(window: Window<T>, positions: Seq<int>)
    requires
        window.valid(),
        forall|l: int|
            0 <= l < positions.len() ==> 0 <= #[trigger] positions[l] < window.frames.len(),
    ensures
        guard::all_finite(window.payload(positions)),
    decreases positions.len(),
{
    let blocks = window.blocks(positions);
    if positions.len() > 0 {
        let rest = positions.drop_first();
        assert forall|l: int| 0 <= l < rest.len() implies 0 <= #[trigger] rest[l]
            < window.frames.len() by {
            assert(rest[l] == positions[l + 1]);
        }
        law_exports_are_finite(window, rest);
        assert(blocks.drop_first() =~= window.blocks(rest));
        assert(0 <= positions[0] < window.frames.len());
        assert(blocks[0] == window.frames[positions[0]].tokens);
        let flat = window.payload(positions);
        assert(flat == blocks[0] + window.payload(rest));
        assert forall|i: int| 0 <= i < flat.len() implies (#[trigger] flat[i]).finite() by {
            if i < blocks[0].len() {
                assert(window.frames[positions[0]].tokens[i].finite());
            } else {
                assert(window.payload(rest)[i - blocks[0].len()].finite());
            }
        }
    }
}

} // verus!
