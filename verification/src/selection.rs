//! Which retained frames an export takes.
//!
//! A selection is described by the positions it takes from a window, where
//! position 0 is the oldest retained frame. It is made from the newest frame
//! back, and written oldest first.

use crate::frame::FrameMeta;
use crate::time;
use crate::time::{CaptureTimestamp, Span};
use vstd::prelude::*;

verus! {

/// How old the frame is when the cache's clock reads `now`.
pub open spec fn age(meta: FrameMeta, now: Span) -> int {
    time::saturating_difference(now.nanos as int, meta.arrival.nanos as int)
}

/// The frame is not older than `limit` when the clock reads `now`.
pub open spec fn fresh(meta: FrameMeta, limit: Option<Span>, now: Span) -> bool {
    match limit {
        Some(limit) => age(meta, now) <= limit.nanos,
        None => true,
    }
}

/// The shorter of two age limits, where `None` is no limit.
pub open spec fn tightest(a: Option<Span>, b: Option<Span>) -> Option<Span> {
    match (a, b) {
        (Some(x), Some(y)) => if x.nanos <= y.nanos {
            Some(x)
        } else {
            Some(y)
        },
        (Some(x), None) => Some(x),
        (None, y) => y,
    }
}

/// How many frames are older than `limit`.
pub open spec fn stale_count(metas: Seq<FrameMeta>, limit: Option<Span>, now: Span) -> nat {
    metas.filter(|meta: FrameMeta| !fresh(meta, limit, now)).len()
}

impl FrameMeta {
    /// How old the frame is when the cache's clock reads `now`.
    pub fn age_at(&self, now: Span) -> (result: Span)
        ensures
            result.nanos == age(*self, now),
            result.nanos == if now.nanos > self.arrival.nanos {
                now.nanos - self.arrival.nanos
            } else {
                0
            },
    {
        now.saturating_sub(self.arrival)
    }

    /// Whether the frame is not older than `limit` when the clock reads `now`.
    pub fn is_fresh(&self, limit: Option<Span>, now: Span) -> (result: bool)
        ensures
            result == fresh(*self, limit, now),
            result <==> (limit matches Some(limit) ==> now.nanos - self.arrival.nanos
                <= limit.nanos),
    {
        match limit {
            Some(limit) => self.age_at(now).nanos <= limit.nanos,
            None => true,
        }
    }
}

/// The shorter of two age limits, where `None` is no limit.
pub fn tightest_limit(a: Option<Span>, b: Option<Span>) -> (result: Option<Span>)
    ensures
        result == tightest(a, b),
        result == a || result == b,
        result is None ==> a is None && b is None,
        a is Some ==> result is Some && result->0.nanos <= a->0.nanos,
        b is Some ==> result is Some && result->0.nanos <= b->0.nanos,
{
    match (a, b) {
        (Some(x), Some(y)) => if x.nanos <= y.nanos {
            Some(x)
        } else {
            Some(y)
        },
        (Some(x), None) => Some(x),
        (None, y) => y,
    }
}

/// What a caller wants of the window.
#[derive(Clone, Copy, Debug, PartialEq, Eq, Structural)]
pub struct ExportPolicy {
    /// Take at most this many frames, the newest that qualify.
    pub max_frames: usize,
    /// Leave out frames that arrived longer ago than this.
    pub max_age: Option<Span>,
    /// Take every `stride`-th frame, counted back from the newest. A stride of
    /// zero takes every frame, as a stride of one does.
    pub stride: usize,
    /// Leave out a frame that was captured less than this before the next
    /// newer frame that is taken. Measured on the sensor clock, so it holds up
    /// when frames arrive irregularly.
    pub min_interval: Option<Span>,
}

impl ExportPolicy {
    /// The whole window.
    pub fn all() -> (policy: Self)
        ensures
            policy == (ExportPolicy {
                max_frames: usize::MAX,
                max_age: None,
                stride: 1,
                min_interval: None,
            }),
    {
        ExportPolicy { max_frames: usize::MAX, max_age: None, stride: 1, min_interval: None }
    }

    /// The newest `max_frames` frames that are not older than `max_age`.
    pub fn recent(max_frames: usize, max_age: Span) -> (policy: Self)
        ensures
            policy == (ExportPolicy {
                max_frames,
                max_age: Some(max_age),
                stride: 1,
                min_interval: None,
            }),
    {
        ExportPolicy { max_frames, max_age: Some(max_age), stride: 1, min_interval: None }
    }

    /// The same policy with another stride.
    pub fn with_stride(self, stride: usize) -> (policy: Self)
        ensures
            policy == (ExportPolicy { stride, ..self }),
    {
        ExportPolicy { stride, ..self }
    }

    /// The same policy with a least distance between captures.
    pub fn with_min_interval(self, min_interval: Span) -> (policy: Self)
        ensures
            policy == (ExportPolicy { min_interval: Some(min_interval), ..self }),
    {
        ExportPolicy { min_interval: Some(min_interval), ..self }
    }

    /// The distance between the positions that the stride allows.
    pub open spec fn step(self) -> nat {
        if self.stride == 0 {
            1
        } else {
            self.stride as nat
        }
    }

    /// The stride allows the frame that stands `back` places before the newest.
    pub open spec fn on_stride(self, back: int) -> bool {
        back % (self.step() as int) == 0
    }

    /// The capture lies far enough before that of the next newer frame taken.
    pub open spec fn spaced(self, next: Option<CaptureTimestamp>, meta: FrameMeta) -> bool {
        match (self.min_interval, next) {
            (Some(gap), Some(next)) => time::saturating_difference(
                next.nanos as int,
                meta.capture.nanos as int,
            ) >= gap.nanos,
            _ => true,
        }
    }

    /// The frame that stands `back` places before the newest is taken, given
    /// the capture time of the next newer frame taken and the age limit.
    pub open spec fn takes(
        self,
        meta: FrameMeta,
        back: int,
        next: Option<CaptureTimestamp>,
        limit: Option<Span>,
        now: Span,
    ) -> bool {
        &&& self.on_stride(back)
        &&& fresh(meta, limit, now)
        &&& self.spaced(next, meta)
    }

    /// Decides on one frame; see [`Self::takes`].
    pub fn decide(
        &self,
        meta: &FrameMeta,
        back: usize,
        next: Option<CaptureTimestamp>,
        limit: Option<Span>,
        now: Span,
    ) -> (result: bool)
        ensures
            result == self.takes(*meta, back as int, next, limit, now),
            result <==> {
                &&& self.stride > 1 ==> back as int % (self.stride as int) == 0
                &&& limit matches Some(limit) ==> now.nanos - meta.arrival.nanos <= limit.nanos
                &&& (self.min_interval is Some && next is Some) ==> {
                    ||| self.min_interval->0.nanos == 0
                    ||| next->0.nanos - meta.capture.nanos >= self.min_interval->0.nanos
                }
            },
    {
        let step: usize = if self.stride == 0 {
            1
        } else {
            self.stride
        };
        if back % step != 0 || !meta.is_fresh(limit, now) {
            return false;
        }
        match (self.min_interval, next) {
            (Some(gap), Some(next)) => {
                let distance: u64 = next.nanos.saturating_sub(meta.capture.nanos);
                distance as u128 >= gap.nanos
            },
            _ => true,
        }
    }
}

/// The positions below `end` that are taken, ascending, when at most `quota`
/// more may be taken and `next` is the capture time of the oldest frame taken
/// so far.
pub open spec fn taken_below(
    metas: Seq<FrameMeta>,
    policy: ExportPolicy,
    limit: Option<Span>,
    now: Span,
    end: int,
    quota: nat,
    next: Option<CaptureTimestamp>,
) -> Seq<int>
    decreases end,
{
    if end <= 0 || quota == 0 {
        Seq::empty()
    } else if policy.takes(metas[end - 1], metas.len() - end, next, limit, now) {
        taken_below(
            metas,
            policy,
            limit,
            now,
            end - 1,
            (quota - 1) as nat,
            Some(metas[end - 1].capture),
        ).push(end - 1)
    } else {
        taken_below(metas, policy, limit, now, end - 1, quota, next)
    }
}

/// The positions that an export takes, ascending: from the newest frame back,
/// each frame that the policy takes, until there are `max_frames`.
pub open spec fn selection(
    metas: Seq<FrameMeta>,
    policy: ExportPolicy,
    limit: Option<Span>,
    now: Span,
) -> Seq<int> {
    taken_below(metas, policy, limit, now, metas.len() as int, policy.max_frames as nat, None)
}

/// What an export found and took.
///
/// An agent that acts on an export has to be able to say that it has had no
/// view recently, rather than answer as though the scene were empty.
#[derive(Clone, Copy, Debug, PartialEq, Eq, Structural)]
pub struct ExportOutcome {
    /// Frames written.
    pub frames: usize,
    /// Frames that the cache held.
    pub retained: usize,
    /// Frames among those held that were too old to be written.
    pub excluded_stale: usize,
}

impl ExportOutcome {
    /// The cache held nothing.
    pub open spec fn blind(self) -> bool {
        self.retained == 0
    }

    /// The cache held frames, and all of them were too old.
    pub open spec fn stale(self) -> bool {
        self.retained > 0 && self.excluded_stale == self.retained
    }

    /// No frame was written.
    pub fn is_empty(&self) -> (result: bool)
        ensures
            result == (self.frames == 0),
    {
        self.frames == 0
    }

    /// The cache held nothing: nothing was ingested, or it was cleared.
    pub fn is_blind(&self) -> (result: bool)
        ensures
            result == self.blind(),
            result == (self.retained == 0),
    {
        self.retained == 0
    }

    /// The cache held frames, and all of them were too old.
    pub fn is_stale(&self) -> (result: bool)
        ensures
            result == self.stale(),
            result == (self.retained > 0 && self.excluded_stale == self.retained),
    {
        self.retained > 0 && self.excluded_stale == self.retained
    }
}

/// No frame is stale where there is no age limit.
pub proof fn law_nothing_is_stale_without_a_limit(metas: Seq<FrameMeta>, now: Span)
    ensures
        stale_count(metas, None, now) == 0,
{
    let stale = |meta: FrameMeta| !fresh(meta, None, now);
    broadcast use vstd::seq_lib::group_filter_ensures;

    let found = metas.filter(stale);
    if found.len() > 0 {
        assert(stale(found[0]));
    }
}

/// Where there is no age limit, what is taken does not depend on the clock.
proof fn lemma_taken_below_ignores_clock(
    metas: Seq<FrameMeta>,
    policy: ExportPolicy,
    now: Span,
    later: Span,
    end: int,
    quota: nat,
    next: Option<CaptureTimestamp>,
)
    ensures
        taken_below(metas, policy, None, now, end, quota, next) == taken_below(
            metas,
            policy,
            None,
            later,
            end,
            quota,
            next,
        ),
    decreases end,
{
    if end > 0 && quota > 0 {
        if policy.takes(metas[end - 1], metas.len() - end, next, None, now) {
            lemma_taken_below_ignores_clock(
                metas,
                policy,
                now,
                later,
                end - 1,
                (quota - 1) as nat,
                Some(metas[end - 1].capture),
            );
        } else {
            lemma_taken_below_ignores_clock(metas, policy, now, later, end - 1, quota, next);
        }
    }
}

/// Where there is no age limit, a selection does not depend on the clock.
pub proof fn law_selection_without_limit_ignores_clock(
    metas: Seq<FrameMeta>,
    policy: ExportPolicy,
    now: Span,
    later: Span,
)
    ensures
        selection(metas, policy, None, now) == selection(metas, policy, None, later),
{
    lemma_taken_below_ignores_clock(
        metas,
        policy,
        now,
        later,
        metas.len() as int,
        policy.max_frames as nat,
        None,
    );
}

/// A policy can narrow the staleness bound and never widen it: what is fresh
/// under both limits is fresh under each.
pub proof fn law_tightest_limit_narrows(
    meta: FrameMeta,
    bound: Option<Span>,
    max_age: Option<Span>,
    now: Span,
)
    ensures
        fresh(meta, tightest(bound, max_age), now) <==> fresh(meta, bound, now) && fresh(
            meta,
            max_age,
            now,
        ),
{
}

/// A frame that has become stale stays stale as the clock goes on.
pub proof fn law_staleness_is_final(
    meta: FrameMeta,
    limit: Option<Span>,
    now: Span,
    later: Span,
)
    requires
        now.nanos <= later.nanos,
        !fresh(meta, limit, now),
    ensures
        !fresh(meta, limit, later),
{
}

/// What holds of the positions taken below `end`.
proof fn lemma_taken_below(
    metas: Seq<FrameMeta>,
    policy: ExportPolicy,
    limit: Option<Span>,
    now: Span,
    end: int,
    quota: nat,
    next: Option<CaptureTimestamp>,
)
    requires
        0 <= end <= metas.len(),
    ensures
        ({
            let taken = taken_below(metas, policy, limit, now, end, quota, next);
            &&& taken.len() <= quota
            &&& taken.len() <= end
            &&& forall|k: int|
                0 <= k < taken.len() ==> {
                    &&& 0 <= #[trigger] taken[k] < end
                    &&& fresh(metas[taken[k]], limit, now)
                    &&& policy.on_stride(metas.len() - 1 - taken[k])
                }
            &&& forall|k: int, l: int| 0 <= k < l < taken.len() ==> taken[k] < taken[l]
            &&& forall|k: int|
                0 <= k < taken.len() - 1 ==> policy.spaced(
                    Some(metas[taken[k + 1]].capture),
                    metas[#[trigger] taken[k]],
                )
            &&& taken.len() > 0 ==> policy.spaced(next, metas[taken.last()])
        }),
    decreases end,
{
    if end > 0 && quota > 0 {
        let capture = metas[end - 1].capture;
        lemma_taken_below(
            metas,
            policy,
            limit,
            now,
            end - 1,
            (quota - 1) as nat,
            Some(capture),
        );
        lemma_taken_below(metas, policy, limit, now, end - 1, quota, next);
    }
}

/// A selection runs from older to newer frames, takes each frame once at most,
/// and takes no more than the policy allows.
pub proof fn law_selection_is_ordered(
    metas: Seq<FrameMeta>,
    policy: ExportPolicy,
    limit: Option<Span>,
    now: Span,
)
    ensures
        selection(metas, policy, limit, now).len() <= policy.max_frames,
        selection(metas, policy, limit, now).len() <= metas.len(),
        forall|k: int|
            0 <= k < selection(metas, policy, limit, now).len() ==> 0 <= #[trigger] selection(
                metas,
                policy,
                limit,
                now,
            )[k] < metas.len(),
        forall|k: int, l: int|
            0 <= k < l < selection(metas, policy, limit, now).len() ==> (#[trigger] selection(
                metas,
                policy,
                limit,
                now,
            )[k]) < #[trigger] selection(metas, policy, limit, now)[l],
{
    lemma_taken_below(
        metas,
        policy,
        limit,
        now,
        metas.len() as int,
        policy.max_frames as nat,
        None,
    );
}

/// Every frame that is taken is within the age limit, stands where the stride
/// allows it, and was captured at least the policy's least interval before the
/// next newer frame that is taken.
pub proof fn law_selection_obeys_the_policy(
    metas: Seq<FrameMeta>,
    policy: ExportPolicy,
    limit: Option<Span>,
    now: Span,
    k: int,
)
    requires
        0 <= k < selection(metas, policy, limit, now).len(),
    ensures
        ({
            let taken = selection(metas, policy, limit, now);
            &&& fresh(metas[taken[k]], limit, now)
            &&& policy.on_stride(metas.len() - 1 - taken[k])
            &&& policy.min_interval is Some && k + 1 < taken.len()
                ==> time::saturating_difference(
                metas[taken[k + 1]].capture.nanos as int,
                metas[taken[k]].capture.nanos as int,
            ) >= policy.min_interval->0.nanos
        }),
{
    lemma_taken_below(
        metas,
        policy,
        limit,
        now,
        metas.len() as int,
        policy.max_frames as nat,
        None,
    );
    let taken = selection(metas, policy, limit, now);
    if policy.min_interval is Some && k + 1 < taken.len() {
        assert(policy.spaced(Some(metas[taken[k + 1]].capture), metas[taken[k]]));
    }
}

/// Every position taken is that of a newer frame than the one at `i`.
pub open spec fn all_newer(taken: Seq<int>, i: int) -> bool {
    forall|k: int| 0 <= k < taken.len() ==> i < #[trigger] taken[k]
}

/// Every position taken is that of an older frame than the one at `i`.
pub open spec fn all_older(taken: Seq<int>, i: int) -> bool {
    forall|k: int| 0 <= k < taken.len() ==> #[trigger] taken[k] < i
}

/// The `k`-th frame taken is the next newer one than the frame at `i`, which
/// was captured too shortly before it.
pub open spec fn crowded_by(
    metas: Seq<FrameMeta>,
    policy: ExportPolicy,
    taken: Seq<int>,
    i: int,
    k: int,
) -> bool {
    &&& 0 <= k < taken.len()
    &&& i < taken[k]
    &&& all_older(taken.take(k), i)
    &&& policy.min_interval matches Some(gap)
    &&& gap.nanos > 0
    &&& metas[taken[k]].capture.nanos - metas[i].capture.nanos < gap.nanos
}

/// Why a position below `end` is not taken.
proof fn lemma_left_out_below(
    metas: Seq<FrameMeta>,
    policy: ExportPolicy,
    limit: Option<Span>,
    now: Span,
    end: int,
    quota: nat,
    next: Option<CaptureTimestamp>,
    i: int,
)
    requires
        0 <= i < end <= metas.len(),
        !taken_below(metas, policy, limit, now, end, quota, next).contains(i),
        fresh(metas[i], limit, now),
        policy.on_stride(metas.len() - 1 - i),
    ensures
        ({
            let taken = taken_below(metas, policy, limit, now, end, quota, next);
            ||| taken.len() == quota && all_newer(taken, i)
            ||| !policy.spaced(next, metas[i]) && all_older(taken, i)
            ||| exists|k: int| crowded_by(metas, policy, taken, i, k)
        }),
    decreases end,
{
    let taken = taken_below(metas, policy, limit, now, end, quota, next);
    if quota == 0 {
        assert(all_newer(taken, i));
    } else if policy.takes(metas[end - 1], metas.len() - end, next, limit, now) {
        let capture = metas[end - 1].capture;
        let shorter = taken_below(
            metas,
            policy,
            limit,
            now,
            end - 1,
            (quota - 1) as nat,
            Some(capture),
        );
        assert(taken == shorter.push(end - 1));
        assert(taken[taken.len() - 1] == end - 1);
        assert(i < end - 1);
        if shorter.contains(i) {
            let at = choose|at: int| 0 <= at < shorter.len() && shorter[at] == i;
            assert(taken[at] == i);
        }
        lemma_left_out_below(
            metas,
            policy,
            limit,
            now,
            end - 1,
            (quota - 1) as nat,
            Some(capture),
            i,
        );
        if shorter.len() == quota - 1 && all_newer(shorter, i) {
            assert(all_newer(taken, i));
        } else if !policy.spaced(Some(capture), metas[i]) && all_older(shorter, i) {
            assert(taken.take(shorter.len() as int) =~= shorter);
            assert(crowded_by(metas, policy, taken, i, shorter.len() as int));
        } else {
            let k = choose|k: int| crowded_by(metas, policy, shorter, i, k);
            assert(taken.take(k) =~= shorter.take(k));
            assert(crowded_by(metas, policy, taken, i, k));
        }
    } else if i < end - 1 {
        lemma_left_out_below(metas, policy, limit, now, end - 1, quota, next, i);
    } else {
        lemma_taken_below(metas, policy, limit, now, end - 1, quota, next);
        assert(all_older(taken, i));
    }
}

/// A frame is left out for one of four reasons only: it is too old, it stands
/// where the stride skips, the newer frames already fill the policy's number
/// of frames, or it was captured too shortly before the next newer frame that
/// is taken.
pub proof fn law_nothing_is_left_out_without_reason(
    metas: Seq<FrameMeta>,
    policy: ExportPolicy,
    limit: Option<Span>,
    now: Span,
    i: int,
)
    requires
        0 <= i < metas.len(),
        !selection(metas, policy, limit, now).contains(i),
    ensures
        ({
            let taken = selection(metas, policy, limit, now);
            ||| !fresh(metas[i], limit, now)
            ||| !policy.on_stride(metas.len() - 1 - i)
            ||| taken.len() == policy.max_frames && all_newer(taken, i)
            ||| exists|k: int| crowded_by(metas, policy, taken, i, k)
        }),
{
    if fresh(metas[i], limit, now) && policy.on_stride(metas.len() - 1 - i) {
        lemma_left_out_below(
            metas,
            policy,
            limit,
            now,
            metas.len() as int,
            policy.max_frames as nat,
            None,
            i,
        );
    }
}

/// `count / step`, rounded up.
pub open spec fn rounded_up(count: int, step: int) -> int {
    (count + step - 1) / step
}

/// Rounding up goes up by one behind each multiple of the step.
proof fn lemma_rounded_up_steps(back: int, step: int)
    requires
        0 <= back,
        0 < step,
    ensures
        rounded_up(back + 1, step) == rounded_up(back, step) + if back % step == 0 {
            1int
        } else {
            0
        },
{
    let q = back / step;
    let r = back % step;
    vstd::arithmetic::div_mod::lemma_fundamental_div_mod(back, step);
    assert(back == q * step + r && (q + 1) * step == q * step + step) by (nonlinear_arith)
        requires
            back == step * q + r,
            q == back / step,
    ;
    vstd::arithmetic::div_mod::lemma_fundamental_div_mod_converse(back + step, step, q + 1, r);
    if r == 0 {
        vstd::arithmetic::div_mod::lemma_fundamental_div_mod_converse(
            back + step - 1,
            step,
            q,
            step - 1,
        );
    } else {
        vstd::arithmetic::div_mod::lemma_fundamental_div_mod_converse(
            back + step - 1,
            step,
            q + 1,
            r - 1,
        );
    }
}

/// The stride alone decides on the positions below `end`.
proof fn lemma_stride_below(
    metas: Seq<FrameMeta>,
    policy: ExportPolicy,
    now: Span,
    end: int,
    quota: nat,
    next: Option<CaptureTimestamp>,
)
    requires
        0 <= end <= metas.len(),
        end <= quota,
        policy.min_interval is None,
    ensures
        ({
            let taken = taken_below(metas, policy, None, now, end, quota, next);
            &&& taken.len() == rounded_up(metas.len() as int, policy.step() as int) - rounded_up(
                metas.len() - end,
                policy.step() as int,
            )
            &&& forall|i: int|
                0 <= i < end ==> (#[trigger] taken.contains(i) <==> policy.on_stride(
                    metas.len() - 1 - i,
                ))
        }),
    decreases end,
{
    if end > 0 {
        let meta = metas[end - 1];
        let taken = taken_below(metas, policy, None, now, end, quota, next);
        lemma_rounded_up_steps(metas.len() - end, policy.step() as int);
        lemma_stride_below(metas, policy, now, end - 1, (quota - 1) as nat, Some(meta.capture));
        lemma_stride_below(metas, policy, now, end - 1, quota, next);
        lemma_taken_below(metas, policy, None, now, end - 1, quota, next);
        if policy.on_stride(metas.len() - end) {
            let shorter = taken_below(
                metas,
                policy,
                None,
                now,
                end - 1,
                (quota - 1) as nat,
                Some(meta.capture),
            );
            assert(taken == shorter.push(end - 1));
            assert forall|i: int| 0 <= i < end implies (#[trigger] taken.contains(i)
                <==> policy.on_stride(metas.len() - 1 - i)) by {
                if i == end - 1 {
                    assert(taken[taken.len() - 1] == i);
                } else {
                    if shorter.contains(i) {
                        let at = choose|at: int| 0 <= at < shorter.len() && shorter[at] == i;
                        assert(taken[at] == i);
                    }
                    if taken.contains(i) {
                        let at = choose|at: int| 0 <= at < taken.len() && taken[at] == i;
                        assert(shorter[at] == i);
                    }
                }
            }
        } else {
            assert(!taken.contains(end - 1));
        }
    }
}

/// With a stride alone, a selection takes every `stride`-th frame counted back
/// from the newest, so the window's length divided by the stride, rounded up.
pub proof fn law_stride_takes_every_nth(metas: Seq<FrameMeta>, policy: ExportPolicy, now: Span)
    requires
        policy.min_interval is None,
        metas.len() <= policy.max_frames,
    ensures
        selection(metas, policy, None, now).len() == rounded_up(
            metas.len() as int,
            policy.step() as int,
        ),
        forall|i: int|
            0 <= i < metas.len() ==> (#[trigger] selection(metas, policy, None, now).contains(i)
                <==> policy.on_stride(metas.len() - 1 - i)),
{
    lemma_stride_below(
        metas,
        policy,
        now,
        metas.len() as int,
        policy.max_frames as nat,
        None,
    );
    vstd::arithmetic::div_mod::lemma_basic_div(policy.step() - 1, policy.step() as int);
}

/// The newest `quota` positions below `end` are taken where nothing else
/// restricts the policy.
proof fn lemma_newest_below(
    metas: Seq<FrameMeta>,
    policy: ExportPolicy,
    now: Span,
    end: int,
    quota: nat,
    next: Option<CaptureTimestamp>,
)
    requires
        0 <= end <= metas.len(),
        policy.stride <= 1,
        policy.min_interval is None,
    ensures
        ({
            let count = if quota < end {
                quota
            } else {
                end as nat
            };
            taken_below(metas, policy, None, now, end, quota, next) == Seq::new(
                count,
                |k: int| end - count + k,
            )
        }),
    decreases end,
{
    let count = if quota < end {
        quota
    } else {
        end as nat
    };
    if end > 0 && quota > 0 {
        lemma_newest_below(
            metas,
            policy,
            now,
            end - 1,
            (quota - 1) as nat,
            Some(metas[end - 1].capture),
        );
    }
    assert(taken_below(metas, policy, None, now, end, quota, next) =~= Seq::new(
        count,
        |k: int| end - count + k,
    ));
}

/// With a number of frames alone, a selection takes that many of the newest
/// frames, or all where there are not as many.
pub proof fn law_max_frames_takes_the_newest(
    metas: Seq<FrameMeta>,
    policy: ExportPolicy,
    now: Span,
)
    requires
        policy.stride <= 1,
        policy.min_interval is None,
    ensures
        ({
            let count = if policy.max_frames < metas.len() {
                policy.max_frames as nat
            } else {
                metas.len()
            };
            selection(metas, policy, None, now) == Seq::new(
                count,
                |k: int| metas.len() - count + k,
            )
        }),
{
    lemma_newest_below(
        metas,
        policy,
        now,
        metas.len() as int,
        policy.max_frames as nat,
        None,
    );
}

/// A frame is counted as stale or as taken, and never as both.
proof fn lemma_taken_and_stale_below(
    metas: Seq<FrameMeta>,
    policy: ExportPolicy,
    limit: Option<Span>,
    now: Span,
    end: int,
    quota: nat,
    next: Option<CaptureTimestamp>,
)
    requires
        0 <= end <= metas.len(),
    ensures
        taken_below(metas, policy, limit, now, end, quota, next).len() + stale_count(
            metas.take(end),
            limit,
            now,
        ) <= end,
    decreases end,
{
    reveal(Seq::filter);
    if end > 0 {
        assert(metas.take(end).drop_last() =~= metas.take(end - 1));
        lemma_taken_and_stale_below(
            metas,
            policy,
            limit,
            now,
            end - 1,
            (quota - 1) as nat,
            Some(metas[end - 1].capture),
        );
        lemma_taken_and_stale_below(metas, policy, limit, now, end - 1, quota, next);
    }
}

/// The frames that a selection takes and those that are too old are different
/// frames of the window.
pub proof fn law_taken_and_stale_are_apart(
    metas: Seq<FrameMeta>,
    policy: ExportPolicy,
    limit: Option<Span>,
    now: Span,
)
    ensures
        selection(metas, policy, limit, now).len() + stale_count(metas, limit, now)
            <= metas.len(),
{
    assert(metas.take(metas.len() as int) =~= metas);
    lemma_taken_and_stale_below(
        metas,
        policy,
        limit,
        now,
        metas.len() as int,
        policy.max_frames as nat,
        None,
    );
}

/// The number of stale frames is that of all frames exactly when no frame is
/// fresh.
pub proof fn law_all_stale(metas: Seq<FrameMeta>, limit: Option<Span>, now: Span)
    ensures
        stale_count(metas, limit, now) <= metas.len(),
        stale_count(metas, limit, now) == metas.len() <==> forall|i: int|
            0 <= i < metas.len() ==> !fresh(#[trigger] metas[i], limit, now),
    decreases metas.len(),
{
    reveal(Seq::filter);
    if metas.len() > 0 {
        let rest = metas.drop_last();
        law_all_stale(rest, limit, now);
        assert(forall|i: int| 0 <= i < rest.len() ==> #[trigger] metas[i] == rest[i]);
        if stale_count(metas, limit, now) == metas.len() {
            assert forall|i: int| 0 <= i < metas.len() implies !fresh(
                #[trigger] metas[i],
                limit,
                now,
            ) by {
                if i < rest.len() {
                    assert(!fresh(rest[i], limit, now));
                }
            }
        }
    }
}

} // verus!
