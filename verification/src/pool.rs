//! Reusable wire buffers, so receiving a frame allocates nothing.
//!
//! The receive task leases a buffer, decodes into it, and publishes the lease.
//! The ingest loop copies the block into a cache slot and hands the lease
//! back, which returns the buffer to the pool. In steady state the same
//! buffers circulate for the life of the process.

use crate::config::FrameShape;
use crate::element;
use crate::element::TokenElement;
use crate::time::CaptureTimestamp;
use vstd::prelude::*;

verus! {

/// A pool as its users see it.
#[verifier::ext_equal]
pub struct PoolView<T> {
    /// Elements in each buffer.
    pub frame_len: nat,
    /// Contents of the buffers that can be leased; the last goes out first.
    pub free: Seq<Seq<T>>,
    /// Leases that had to be given a new buffer; the count wraps around.
    pub fallbacks: u64,
}

impl<T: TokenElement> PoolView<T> {
    /// Every buffer in the pool holds one frame.
    pub open spec fn valid(self) -> bool {
        forall|i: int|
            0 <= i < self.free.len() ==> (#[trigger] self.free[i]).len() == self.frame_len
    }

    /// The pool after a buffer was leased.
    pub open spec fn acquired(self) -> Self {
        if self.free.len() > 0 {
            PoolView { free: self.free.drop_last(), ..self }
        } else {
            PoolView {
                fallbacks: ((self.fallbacks + 1) % 0x1_0000_0000_0000_0000) as u64,
                ..self
            }
        }
    }

    /// What the leased buffer holds: whatever was left in it, or zeroes where
    /// it had to be made.
    pub open spec fn leased(self) -> Seq<T> {
        if self.free.len() > 0 {
            self.free.last()
        } else {
            element::blank_block(self.frame_len)
        }
    }

    /// The pool after a buffer came back. One that does not hold one frame is
    /// discarded.
    pub open spec fn released(self, block: Seq<T>) -> Self {
        if block.len() == self.frame_len {
            PoolView { free: self.free.push(block), ..self }
        } else {
            self
        }
    }
}

/// Fixed set of pre-allocated frame buffers.
pub struct BufferPool<T: TokenElement> {
    free: Vec<Vec<T>>,
    frame_len: usize,
    fallbacks: u64,
}

impl<T: TokenElement> BufferPool<T> {
    /// The state of the pool.
    pub closed spec fn view(self) -> PoolView<T> {
        PoolView {
            frame_len: self.frame_len as nat,
            free: self.free@.map_values(|buffer: Vec<T>| buffer@),
            fallbacks: self.fallbacks,
        }
    }

    /// Pre-allocates `count` buffers of `frame_len` elements.
    ///
    /// Size `count` to the queue bound plus the number of frames that can be
    /// in flight in the receive task, so [`Self::acquire`] never has to fall
    /// back to allocating.
    pub fn with_buffers(frame_len: usize, count: usize) -> (pool: Self)
        ensures
            pool@.valid(),
            pool@ == (PoolView {
                frame_len: frame_len as nat,
                free: Seq::new(count as nat, |i: int| element::blank_block::<T>(frame_len as nat)),
                fallbacks: 0,
            }),
    {
        let mut free: Vec<Vec<T>> = Vec::with_capacity(count);
        while free.len() < count
            invariant
                free@.len() <= count,
                forall|i: int|
                    0 <= i < free@.len() ==> (#[trigger] free@[i])@ == element::blank_block::<T>(
                        frame_len as nat,
                    ),
            decreases count - free@.len(),
        {
            free.push(element::blank_buffer(frame_len));
        }
        let pool = BufferPool { free, frame_len, fallbacks: 0 };
        assert(pool@.free =~= Seq::new(
            count as nat,
            |i: int| element::blank_block::<T>(frame_len as nat),
        ));
        pool
    }

    /// Takes a buffer from the pool, with an empty header.
    ///
    /// Allocates a replacement only if the pool is exhausted, which means that
    /// the pool was sized too small for the in-flight depth; the replacement
    /// is counted.
    pub fn acquire(&mut self) -> (lease: FrameLease<T>)
        requires
            old(self)@.valid(),
        ensures
            final(self)@.valid(),
            final(self)@ == old(self)@.acquired(),
            lease@ == (LeaseView {
                tokens: old(self)@.leased(),
                capture: CaptureTimestamp { nanos: 0 },
                declared: FrameShape { tokens: 0, dim: 0 },
            }),
            lease@.tokens.len() == old(self)@.frame_len,
    {
        let ghost before = self@;
        let buf: Vec<T> = match self.free.pop() {
            Some(buffer) => buffer,
            None => {
                self.fallbacks = self.fallbacks.wrapping_add(1);
                element::blank_buffer(self.frame_len)
            },
        };
        proof {
            if before.free.len() > 0 {
                assert(before.free.last().len() == before.frame_len);
                assert(self@.free =~= before.free.drop_last());
            } else {
                assert(self@.free =~= before.free);
            }
        }
        FrameLease { buf, capture: CaptureTimestamp::default(), declared: FrameShape::default() }
    }

    /// Returns a leased buffer to the pool. A buffer that does not hold one
    /// frame of this pool is discarded.
    pub fn release(&mut self, lease: FrameLease<T>)
        requires
            old(self)@.valid(),
        ensures
            final(self)@.valid(),
            final(self)@ == old(self)@.released(lease@.tokens),
    {
        let ghost before = self@;
        if lease.buf.len() == self.frame_len {
            self.free.push(lease.buf);
            assert(self@.free =~= before.free.push(lease@.tokens));
        }
    }

    /// Buffers currently available.
    pub fn available(&self) -> (count: usize)
        ensures
            count == self@.free.len(),
    {
        self.free.len()
    }

    /// Elements in each pooled buffer.
    pub fn frame_len(&self) -> (len: usize)
        ensures
            len == self@.frame_len,
    {
        self.frame_len
    }

    /// Leases that had to be given a new buffer because the pool was exhausted.
    pub fn fallback_allocations(&self) -> (count: u64)
        ensures
            count == self@.fallbacks,
    {
        self.fallbacks
    }
}

/// A leased frame as its users see it.
#[verifier::ext_equal]
pub struct LeaseView<T> {
    /// Contents of the buffer.
    pub tokens: Seq<T>,
    /// Capture time reported by the sensor device.
    pub capture: CaptureTimestamp,
    /// Geometry that the sensor device projected this frame for.
    pub declared: FrameShape,
}

/// A pooled buffer plus the frame header the sensor device sent with it.
///
/// Derefs to `[T]`. Hand it back with [`BufferPool::release`] when it is no
/// longer needed.
pub struct FrameLease<T: TokenElement> {
    buf: Vec<T>,
    /// Capture time reported by the sensor device.
    pub capture: CaptureTimestamp,
    /// Geometry that the sensor device projected this frame for.
    pub declared: FrameShape,
}

impl<T: TokenElement> FrameLease<T> {
    /// The leased frame.
    pub closed spec fn view(self) -> LeaseView<T> {
        LeaseView { tokens: self.buf@, capture: self.capture, declared: self.declared }
    }

    /// Stamps the frame header carried alongside the token block.
    pub fn set_header(&mut self, capture: CaptureTimestamp, declared: FrameShape)
        ensures
            final(self)@ == (LeaseView { capture, declared, ..old(self)@ }),
    {
        self.capture = capture;
        self.declared = declared;
    }

    /// The frame header: capture time and declared geometry.
    pub fn header(&self) -> (header: (CaptureTimestamp, FrameShape))
        ensures
            header == (self@.capture, self@.declared),
    {
        (self.capture, self.declared)
    }
}

impl<T: TokenElement> core::ops::Deref for FrameLease<T> {
    type Target = [T];

    /// The contents of the buffer.
    fn deref(&self) -> (tokens: &[T])
        ensures
            tokens@ == self@.tokens,
    {
        self.buf.as_slice()
    }
}

impl<T: TokenElement> core::ops::DerefMut for FrameLease<T> {
    /// The contents of the buffer, to decode a frame into.
    fn deref_mut(&mut self) -> (tokens: &mut [T])
        ensures
            tokens@ == old(self)@.tokens,
            final(self)@ == (LeaseView { tokens: final(tokens)@, ..old(self)@ }),
    {
        self.buf.as_mut_slice()
    }
}

/// A buffer that was leased and comes back, whatever was decoded into it,
/// leaves the pool with as many buffers as before, or with one more where the
/// pool was exhausted.
pub proof fn law_buffers_circulate<T: TokenElement>(pool: PoolView<T>, block: Seq<T>)
    requires
        pool.valid(),
        block.len() == pool.frame_len,
    ensures
        pool.leased().len() == pool.frame_len,
        pool.acquired().released(block).valid(),
        pool.acquired().released(block).frame_len == pool.frame_len,
        pool.acquired().released(block).free.len() == if pool.free.len() > 0 {
            pool.free.len()
        } else {
            1
        },
        pool.acquired().released(block).fallbacks == pool.fallbacks || pool.free.len() == 0,
{
    assert forall|i: int| 0 <= i < pool.acquired().released(block).free.len() implies (
    #[trigger] pool.acquired().released(block).free[i]).len() == pool.frame_len by {
        if i < pool.free.len() - 1 {
            assert(pool.free[i].len() == pool.frame_len);
        }
    }
}

/// A buffer that is returned unread and unwritten leaves a pool that was not
/// exhausted as it was.
pub proof fn law_release_undoes_acquire<T: TokenElement>(pool: PoolView<T>)
    requires
        pool.valid(),
        pool.free.len() > 0,
    ensures
        pool.acquired().released(pool.leased()) == pool,
{
    assert(pool.free.last().len() == pool.frame_len);
    assert(pool.free.drop_last().push(pool.free.last()) =~= pool.free);
}

/// A buffer that was released is the next to be leased, with what it holds.
pub proof fn law_acquire_undoes_release<T: TokenElement>(pool: PoolView<T>, block: Seq<T>)
    requires
        block.len() == pool.frame_len,
    ensures
        pool.released(block).leased() == block,
        pool.released(block).acquired() == pool,
{
    assert(pool.free.push(block).drop_last() =~= pool.free);
}

} // verus!
