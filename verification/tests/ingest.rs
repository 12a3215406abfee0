//! Coverage for the ingest path as a consumer sees it.
//!
//! Frame geometry and capacity here are arbitrary small values chosen for
//! the tests. Nothing in the crate depends on them.

use vision_ingest::orchestrator::{AsyncIngestOrchestrator, IngestHandles};
use vision_ingest::pool::BufferPool;
use vision_ingest::ring_buffer::{ExportPolicy, IngestRingBuffer};
use vision_ingest::{
    CaptureTimestamp, CompressedFrame, F32Bits, FrameShape, IngestConfig, IngestError, IngestStats,
    Span, StreamGuard,
};

const SHAPE: FrameShape = FrameShape { tokens: 8, dim: 16 };
const FRAME_LEN: usize = 128;
const CAP: usize = 12;

/// Same element count as `SHAPE`, different geometry.
const SWAPPED: FrameShape = FrameShape { tokens: 16, dim: 8 };

fn ts(nanos: u64) -> CaptureTimestamp {
    CaptureTimestamp::from_nanos(nanos)
}

fn float(value: f32) -> F32Bits {
    F32Bits::from_bits(value.to_bits())
}

fn value(element: F32Bits) -> f32 {
    f32::from_bits(element.bits)
}

fn block(marker: f32) -> Vec<F32Bits> {
    vec![float(marker); FRAME_LEN]
}

/// Leases a buffer, fills it with `marker`, stamps the header and publishes it.
fn publish(
    pool: &mut BufferPool<F32Bits>,
    handles: &mut IngestHandles<F32Bits>,
    marker: f32,
    nanos: u64,
    declared: FrameShape,
) -> bool {
    let mut lease = pool.acquire();
    lease.fill(float(marker));
    lease.set_header(ts(nanos), declared);
    handles
        .sender
        .try_publish(lease, &handles.control, &mut handles.stats, pool)
}

/// Runs the drain loop until the queue is empty.
fn drain(pool: &mut BufferPool<F32Bits>, handles: &mut IngestHandles<F32Bits>) {
    while let Ok(lease) = handles.orchestrator.frame_rx.try_recv() {
        let _ = AsyncIngestOrchestrator::commit(
            lease,
            &mut handles.buffer,
            &mut handles.stats,
            pool,
        );
    }
}

fn cache() -> IngestRingBuffer<F32Bits> {
    IngestRingBuffer::<F32Bits>::new(SHAPE, CAP)
}

/// Pushes `count` frames whose marker equals their index.
fn fill(cache: &mut IngestRingBuffer<F32Bits>, count: u64) {
    for i in 0..count {
        cache
            .push_snapshot(&block(i as f32), ts(i), SHAPE)
            .expect("well-formed frame");
    }
}

fn marker_at(out: &[F32Bits], frame: usize) -> f32 {
    value(out[frame * FRAME_LEN])
}

// --- ingest path end to end ---

#[test]
fn valid_frame_reaches_the_cache() {
    let mut handles = IngestHandles::<F32Bits>::new(SHAPE, CAP, 8);
    let mut pool = BufferPool::<F32Bits>::with_buffers(FRAME_LEN, 8);

    assert!(publish(&mut pool, &mut handles, 1.337, 42, SHAPE));
    drain(&mut pool, &mut handles);
    assert_eq!(handles.stats.accepted(), 1);

    let cache = &handles.buffer;
    let payload = {
        let mut out = Vec::new();
        cache.export_into(&mut out);
        out
    };
    assert_eq!(payload.len(), FRAME_LEN);
    assert!(payload
        .iter()
        .all(|v| (value(*v) - 1.337).abs() < f32::EPSILON));

    let meta = cache.frame_metadata();
    assert_eq!(meta.len(), 1);
    assert_eq!(meta[0].capture, ts(42));
    assert_eq!(meta[0].sequence, 0);
}

#[test]
fn shape_mismatch_is_counted_and_does_not_stall_the_loop() {
    let mut handles = IngestHandles::<F32Bits>::new(SHAPE, CAP, 8);
    let mut pool = BufferPool::<F32Bits>::with_buffers(FRAME_LEN, 8);

    // Right length, wrong declared geometry: the sensor side is emitting a
    // block this node was not configured for.
    assert!(publish(&mut pool, &mut handles, 9.0, 1, SWAPPED));
    assert!(publish(&mut pool, &mut handles, 2.0, 2, SHAPE));
    drain(&mut pool, &mut handles);

    assert_eq!(handles.stats.rejected_shape(), 1);
    assert_eq!(handles.stats.rejected_length(), 0);
    assert_eq!(handles.stats.accepted(), 1);

    let mut out = Vec::new();
    handles.buffer.export_into(&mut out);
    assert_eq!(out.len(), FRAME_LEN);
    assert!((value(out[0]) - 2.0).abs() < f32::EPSILON);
}

#[test]
fn non_finite_frame_is_rejected() {
    let mut handles = IngestHandles::<F32Bits>::new(SHAPE, CAP, 8);
    let mut pool = BufferPool::<F32Bits>::with_buffers(FRAME_LEN, 8);

    let mut lease = pool.acquire();
    lease.fill(float(0.5));
    lease[FRAME_LEN / 2] = float(f32::NAN);
    lease.set_header(ts(7), SHAPE);
    assert!(handles
        .sender
        .try_publish(lease, &handles.control, &mut handles.stats, &mut pool));

    drain(&mut pool, &mut handles);
    assert_eq!(handles.stats.rejected_total(), 1);
    assert_eq!(handles.stats.rejected_non_finite(), 1);
    assert_eq!(handles.stats.accepted(), 0);
    assert!(handles.buffer.is_empty());
    assert_eq!(pool.available(), 8);
}

#[test]
fn queue_full_drops_rather_than_blocking() {
    // Nothing drains the queue.
    let mut handles = IngestHandles::<F32Bits>::new(SHAPE, CAP, 1);
    let mut pool = BufferPool::<F32Bits>::with_buffers(FRAME_LEN, 4);

    assert!(publish(&mut pool, &mut handles, 1.0, 1, SHAPE));
    assert!(!publish(&mut pool, &mut handles, 1.0, 2, SHAPE));
    assert!(!publish(&mut pool, &mut handles, 1.0, 3, SHAPE));

    assert_eq!(handles.stats.dropped_queue_full(), 2);
    // Dropped leases returned their buffers: one is still held by the queue.
    assert_eq!(pool.available(), 3);
}

#[test]
fn cache_is_readable_while_ingest_runs() {
    let mut handles = IngestHandles::<F32Bits>::new(SHAPE, CAP, 16);
    let mut pool = BufferPool::<F32Bits>::with_buffers(FRAME_LEN, 16);
    let mut out = Vec::with_capacity(FRAME_LEN * CAP);

    for i in 0..CAP as u64 {
        assert!(publish(&mut pool, &mut handles, i as f32, i, SHAPE));
        if i % 3 == 0 {
            drain(&mut pool, &mut handles);
        }
        let _ = handles.buffer.export_into(&mut out);
        assert_eq!(out.len() % FRAME_LEN, 0);
    }
    drain(&mut pool, &mut handles);
    assert_eq!(handles.stats.accepted(), CAP as u64);
    assert_eq!(handles.stats.rejected_total(), 0);
}

#[test]
fn orchestrator_honours_the_configured_capacity() {
    let mut handles = IngestHandles::<F32Bits>::new(SHAPE, 2, 8);
    let mut pool = BufferPool::<F32Bits>::with_buffers(FRAME_LEN, 8);

    for i in 0..5u64 {
        assert!(publish(&mut pool, &mut handles, i as f32, i, SHAPE));
    }
    drain(&mut pool, &mut handles);
    assert_eq!(handles.stats.accepted(), 5);

    assert_eq!(handles.buffer.capacity(), 2);
    assert_eq!(handles.buffer.len(), 2);
    let mut out = Vec::new();
    assert_eq!(handles.buffer.export_into(&mut out).frames, 2);
}

#[test]
fn suspended_ingest_drops_without_queueing() {
    let mut handles = IngestHandles::<F32Bits>::new(SHAPE, CAP, 8);
    let mut pool = BufferPool::<F32Bits>::with_buffers(FRAME_LEN, 4);

    handles.control.suspend();
    assert!(!handles.control.is_active());
    assert!(!publish(&mut pool, &mut handles, 1.0, 1, SHAPE));
    assert!(!publish(&mut pool, &mut handles, 1.0, 2, SHAPE));
    drain(&mut pool, &mut handles);

    assert_eq!(handles.stats.dropped_suspended(), 2);
    assert_eq!(handles.stats.accepted(), 0);
    assert_eq!(pool.available(), 4);
    assert!(handles.buffer.is_empty());

    handles.control.resume();
    assert!(publish(&mut pool, &mut handles, 3.0, 3, SHAPE));
    drain(&mut pool, &mut handles);
    assert_eq!(handles.stats.accepted(), 1);
    assert_eq!(handles.stats.dropped_suspended(), 2);
}

#[test]
fn test_pipeline_concurrency_and_bounds() {
    let target_dim = 2048; // Edge node validation dimension
    let frame_len = IngestConfig::COMPRESSED_DIM * target_dim;
    let shape = FrameShape::for_target(target_dim);
    let mut handles =
        IngestHandles::<F32Bits>::new(shape, IngestConfig::DEFAULT_FIFO_FRAMES, 10);
    let mut pool = BufferPool::<F32Bits>::with_buffers(frame_len, 1);

    // Well-formed payloads pass the guard.
    assert!(publish(&mut pool, &mut handles, 1.337, 1, shape));
    drain(&mut pool, &mut handles);

    let linear_data = handles.buffer.export_linearized_payload();
    assert_eq!(linear_data.len(), frame_len);
    assert_eq!(value(linear_data[0]), 1.337f32);
}

#[test]
fn test_malformed_frame_is_rejected_without_stalling_loop() {
    let target_dim = 128;
    let frame_len = IngestConfig::COMPRESSED_DIM * target_dim;
    let shape = FrameShape::for_target(target_dim);
    let mut handles =
        IngestHandles::<F32Bits>::new(shape, IngestConfig::DEFAULT_FIFO_FRAMES, 10);
    let mut short = BufferPool::<F32Bits>::with_buffers(16, 1);
    let mut pool = BufferPool::<F32Bits>::with_buffers(frame_len, 1);

    // Short block: the guard must drop it and the loop must keep running.
    assert!(publish(&mut short, &mut handles, 0.0, 1, shape));
    assert!(publish(&mut pool, &mut handles, 2.0, 2, shape));
    drain(&mut pool, &mut handles);

    assert_eq!(handles.stats.rejected_length(), 1);
    let linear_data = handles.buffer.export_linearized_payload();
    assert_eq!(linear_data.len(), frame_len);
    assert_eq!(value(linear_data[0]), 2.0f32);
}

#[test]
fn a_run_of_the_drain_loop_counts_each_frame_once_and_keeps_the_order() {
    let mut handles = IngestHandles::<F32Bits>::new(SHAPE, 3, 16);
    let mut pool = BufferPool::<F32Bits>::with_buffers(FRAME_LEN, 16);
    let mut short = BufferPool::<F32Bits>::with_buffers(FRAME_LEN - 1, 1);

    assert!(publish(&mut pool, &mut handles, 0.0, 10, SHAPE));
    assert!(publish(&mut pool, &mut handles, 1.0, 11, SWAPPED));
    assert!(publish(&mut pool, &mut handles, 2.0, 12, SHAPE));
    assert!(publish(&mut pool, &mut handles, f32::NAN, 13, SHAPE));
    assert!(publish(&mut short, &mut handles, 4.0, 14, SHAPE));
    assert!(publish(&mut pool, &mut handles, 5.0, 15, SHAPE));
    assert!(publish(&mut pool, &mut handles, 6.0, 16, SHAPE));
    assert!(publish(&mut pool, &mut handles, 7.0, 17, SWAPPED));
    drain(&mut pool, &mut handles);

    assert_eq!(handles.stats.accepted(), 4);
    assert_eq!(handles.buffer.frames_accepted(), 4);
    assert_eq!(handles.stats.rejected_shape(), 2);
    assert_eq!(handles.stats.rejected_length(), 1);
    assert_eq!(handles.stats.rejected_non_finite(), 1);
    assert_eq!(handles.stats.rejected_total(), 4);
    // The short buffer is not one of this pool.
    assert_eq!(pool.available(), 16);

    let captures: Vec<u64> = handles
        .buffer
        .frame_metadata()
        .iter()
        .map(|m| m.capture.as_nanos())
        .collect();
    assert_eq!(captures, vec![12, 15, 16]);
    let payload = handles.buffer.export_linearized_payload();
    let markers: Vec<f32> = (0..3).map(|k| marker_at(&payload, k)).collect();
    assert_eq!(markers, vec![2.0, 5.0, 6.0]);
}

#[test]
fn the_drain_loop_ends_with_the_queue_and_not_before() {
    let mut cache = cache();
    let mut stats = IngestStats::new();
    let mut pool = BufferPool::<F32Bits>::with_buffers(FRAME_LEN, 1);

    // A rejected frame: the loop goes on.
    let mut lease = pool.acquire();
    lease.set_header(ts(1), SWAPPED);
    let round = AsyncIngestOrchestrator::receive_at(Some(lease), &mut cache, Span::from_secs(1))
        .expect("a frame makes a round");
    assert_eq!(
        AsyncIngestOrchestrator::account(round, &mut stats, &mut pool),
        Err(IngestError::ShapeMismatch {
            expected: SHAPE,
            actual: SWAPPED
        })
    );
    assert_eq!(stats.rejected_shape(), 1);
    assert_eq!(pool.available(), 1);

    // An accepted one.
    let mut lease = pool.acquire();
    lease.set_header(ts(2), SHAPE);
    let round = AsyncIngestOrchestrator::receive(Some(lease), &mut cache)
        .expect("a frame makes a round");
    assert_eq!(round.result, Ok(false));
    let _ = AsyncIngestOrchestrator::account(round, &mut stats, &mut pool);
    assert_eq!(stats.accepted(), 1);
    assert_eq!(cache.len(), 1);

    // The end of the queue.
    assert!(AsyncIngestOrchestrator::receive(None, &mut cache).is_none());
    assert_eq!(cache.len(), 1);
}

#[test]
fn the_two_ends_belong_to_one_queue() {
    let mut first = IngestHandles::<F32Bits>::new(SHAPE, CAP, 2);
    let mut second = IngestHandles::<F32Bits>::new(SHAPE, CAP, 2);
    let mut pool = BufferPool::<F32Bits>::with_buffers(FRAME_LEN, 4);

    assert!(publish(&mut pool, &mut first, 1.0, 1, SHAPE));
    assert!(publish(&mut pool, &mut first, 2.0, 2, SHAPE));
    assert!(!publish(&mut pool, &mut first, 3.0, 3, SHAPE));
    drain(&mut pool, &mut second);
    assert!(second.buffer.is_empty());
    drain(&mut pool, &mut first);
    assert_eq!(first.buffer.len(), 2);
}

#[test]
fn a_closed_queue_returns_the_buffer() {
    let handles = IngestHandles::<F32Bits>::new(SHAPE, CAP, 8);
    let mut pool = BufferPool::<F32Bits>::with_buffers(FRAME_LEN, 2);
    let IngestHandles {
        orchestrator,
        sender,
        mut stats,
        control,
        ..
    } = handles;
    drop(orchestrator);

    let mut lease = pool.acquire();
    lease.fill(float(6.0));
    assert!(!sender.try_publish(lease, &control, &mut stats, &mut pool));
    assert_eq!(pool.available(), 2);
    assert_eq!(stats.dropped_queue_full(), 0);
    // The frame came back as it was offered.
    assert_eq!(value(pool.acquire()[0]), 6.0);
}

// --- the guard ---

#[test]
fn test_guard_bounds() {
    assert!(StreamGuard::verify_tensor_bounds(64, 64).is_ok());
    assert!(StreamGuard::verify_tensor_bounds(63, 64).is_err());
    assert_eq!(
        StreamGuard::verify_tensor_bounds(65, 64),
        Err("StreamGuard Violation: Structural dimensionality mismatch. Visual array rejected.")
    );
}

#[test]
fn guard_reports_cause() {
    let good = block(0.0);
    assert_eq!(StreamGuard::verify(&good, SHAPE, SHAPE), Ok(()));

    let short = vec![float(0.0); FRAME_LEN - 1];
    assert_eq!(
        StreamGuard::verify(&short, SHAPE, SHAPE),
        Err(IngestError::LengthMismatch {
            expected: FRAME_LEN,
            actual: FRAME_LEN - 1
        })
    );
    assert_eq!(
        StreamGuard::verify(&good, SHAPE, SWAPPED),
        Err(IngestError::ShapeMismatch {
            expected: SHAPE,
            actual: SWAPPED
        })
    );
    let mut bad = good.clone();
    bad[3] = float(f32::INFINITY);
    assert_eq!(
        StreamGuard::verify(&bad, SHAPE, SHAPE),
        Err(IngestError::NonFiniteElement { index: 3 })
    );
}

#[test]
fn a_foreign_geometry_is_told_from_a_truncated_block() {
    let foreign = FrameShape::new(8, 17);
    let longer = vec![float(0.0); 8 * 17];
    assert_eq!(
        StreamGuard::verify(&longer, SHAPE, foreign),
        Err(IngestError::ShapeMismatch {
            expected: SHAPE,
            actual: foreign
        })
    );
    let mut bad = block(0.0);
    bad[9] = float(f32::NAN);
    bad[4] = float(f32::NEG_INFINITY);
    assert_eq!(
        StreamGuard::verify(&bad, SHAPE, SHAPE),
        Err(IngestError::NonFiniteElement { index: 4 })
    );
}

// --- the window ---

#[test]
fn window_evicts_oldest_and_stays_capped() {
    let mut cache = cache();
    let overshoot = 5u64;
    let total = CAP as u64 + overshoot;

    for i in 0..total {
        let evicted = cache
            .push_snapshot(&block(i as f32), ts(i), SHAPE)
            .expect("well-formed frame");
        assert_eq!(evicted, i >= CAP as u64);
    }

    let mut out = Vec::new();
    cache.export_into(&mut out);
    assert_eq!(out.len(), cache.window_capacity());
    assert_eq!(cache.len(), CAP);
    assert!((marker_at(&out, 0) - overshoot as f32).abs() < f32::EPSILON);
    assert!((marker_at(&out, CAP - 1) - (total - 1) as f32).abs() < f32::EPSILON);

    let sequences: Vec<u64> = cache.frame_metadata().iter().map(|m| m.sequence).collect();
    assert_eq!(sequences.first().copied(), Some(overshoot));
    assert_eq!(sequences.last().copied(), Some(total - 1));
    assert_eq!(cache.frames_accepted(), total);
}

#[test]
fn test_cache_evicts_oldest_beyond_capacity() {
    let target_dim = 4;
    let frame_len = IngestConfig::COMPRESSED_DIM * target_dim;
    let mut cache =
        IngestRingBuffer::<F32Bits>::with_capacity(target_dim, IngestConfig::MAX_FIFO_FRAMES);

    // Overfill by 5 frames; the payload must stay capped at MAX_FIFO_FRAMES.
    let overshoot = 5;
    for i in 0..IngestConfig::MAX_FIFO_FRAMES + overshoot {
        let marker = i as f32;
        cache
            .push_frame(&CompressedFrame {
                timestamp: ts(i as u64),
                token_data: vec![float(marker); frame_len],
                dimensions: target_dim,
            })
            .expect("well-formed frame");
    }

    let payload = cache.export_linearized_payload();
    assert_eq!(payload.len(), IngestConfig::MAX_FIFO_FRAMES * frame_len);
    // Oldest surviving frame is the one at index `overshoot`.
    let oldest = overshoot as f32;
    assert_eq!(value(payload[0]), oldest);
    let newest = (IngestConfig::MAX_FIFO_FRAMES + overshoot - 1) as f32;
    assert_eq!(value(payload[payload.len() - 1]), newest);
    assert_eq!(cache.target_dim(), target_dim);
}

#[test]
fn an_owned_frame_declares_its_width() {
    let mut cache = IngestRingBuffer::<F32Bits>::with_capacity(4, 2);
    let mut frame = CompressedFrame {
        timestamp: ts(3),
        token_data: vec![float(1.0); 64 * 4],
        dimensions: 5,
    };
    assert_eq!(
        cache.push_frame(&frame),
        Err(IngestError::ShapeMismatch {
            expected: FrameShape::new(64, 4),
            actual: FrameShape::new(64, 5)
        })
    );
    frame.dimensions = 4;
    assert_eq!(cache.push_frame(&frame.clone()), Ok(false));
    assert_eq!(cache.frame_metadata()[0].capture, ts(3));
    frame.token_data.pop();
    assert_eq!(
        cache.push_frame(&frame),
        Err(IngestError::LengthMismatch {
            expected: 256,
            actual: 255
        })
    );
}

#[test]
fn capacity_is_explicit_and_bounds_the_window() {
    let mut cache = IngestRingBuffer::<F32Bits>::new(SHAPE, 4);
    assert_eq!(cache.capacity(), 4);
    assert_eq!(cache.shape(), SHAPE);
    assert_eq!(cache.window_capacity(), 4 * FRAME_LEN);

    fill(&mut cache, 10);
    assert_eq!(cache.len(), 4);

    let mut out = Vec::new();
    cache.export_into(&mut out);
    assert_eq!(out.len(), 4 * FRAME_LEN);
    assert!((marker_at(&out, 0) - 6.0).abs() < f32::EPSILON);
    assert!((marker_at(&out, 3) - 9.0).abs() < f32::EPSILON);
}

#[test]
fn a_window_of_one_holds_the_newest_frame() {
    let mut cache = IngestRingBuffer::<F32Bits>::new(SHAPE, 1);
    assert!(cache.is_empty());
    fill(&mut cache, 3);
    assert_eq!(cache.len(), 1);
    let payload = cache.export_linearized_payload();
    assert_eq!(payload.len(), FRAME_LEN);
    assert_eq!(value(payload[FRAME_LEN - 1]), 2.0);
}

#[test]
fn a_rejected_frame_leaves_the_window_alone() {
    let mut cache = cache();
    fill(&mut cache, 2);
    let before = cache.export_linearized_payload();
    let mut bad = block(4.0);
    bad[FRAME_LEN - 1] = float(f32::NAN);
    assert_eq!(
        cache.push_snapshot(&bad, ts(9), SHAPE),
        Err(IngestError::NonFiniteElement {
            index: FRAME_LEN - 1
        })
    );
    assert_eq!(
        cache.push_snapshot(&block(4.0), ts(9), SWAPPED),
        Err(IngestError::ShapeMismatch {
            expected: SHAPE,
            actual: SWAPPED
        })
    );
    assert_eq!(cache.export_linearized_payload(), before);
    assert_eq!(cache.frames_accepted(), 2);
}

// --- allocation ---

#[test]
fn export_into_reuses_the_caller_buffer() {
    let mut cache = cache();
    fill(&mut cache, CAP as u64);

    let mut out = Vec::with_capacity(cache.window_capacity());
    let capacity_before = out.capacity();
    for _ in 0..16 {
        cache.export_into(&mut out);
        assert_eq!(out.len(), cache.window_capacity());
    }
    assert_eq!(out.capacity(), capacity_before);
}

#[test]
fn export_is_allocation_free_at_a_large_capacity() {
    // A capacity well past anything the other tests use, to show the export
    // path holds nothing per frame and does not fall back to allocating as
    // the window grows.
    let shape = FrameShape::new(2, 2);
    let mut cache = IngestRingBuffer::<F32Bits>::new(shape, 512);
    let frame_len = cache.frame_len();
    for i in 0..600u64 {
        cache
            .push_snapshot(&vec![float(i as f32); frame_len], ts(i), shape)
            .expect("well-formed frame");
    }

    let mut out = Vec::with_capacity(cache.window_capacity());
    let capacity_before = out.capacity();
    for _ in 0..8 {
        assert_eq!(
            cache.export_with(&mut out, &ExportPolicy::all()).frames,
            512
        );
        assert_eq!(
            cache
                .export_with(&mut out, &ExportPolicy::all().with_stride(7))
                .frames,
            74
        );
    }
    assert_eq!(out.capacity(), capacity_before);
}

#[test]
fn pool_recycles_buffers() {
    let mut pool = BufferPool::<F32Bits>::with_buffers(FRAME_LEN, 3);
    assert_eq!(pool.available(), 3);
    {
        let a = pool.acquire();
        let b = pool.acquire();
        assert_eq!(pool.available(), 1);
        pool.release(a);
        pool.release(b);
    }
    assert_eq!(pool.available(), 3);
}

#[test]
fn pool_exhaustion_is_counted_and_never_fails() {
    let mut pool = BufferPool::<F32Bits>::with_buffers(FRAME_LEN, 1);
    assert_eq!(pool.fallback_allocations(), 0);

    let a = pool.acquire();
    let b = pool.acquire();
    assert_eq!(a.len(), FRAME_LEN);
    assert_eq!(b.len(), FRAME_LEN);
    assert_eq!(pool.fallback_allocations(), 1);

    pool.release(a);
    pool.release(b);
    assert_eq!(pool.available(), 2);
}

#[test]
fn a_released_buffer_is_the_next_to_be_leased() {
    let mut pool = BufferPool::<F32Bits>::with_buffers(4, 2);
    assert_eq!(pool.frame_len(), 4);
    let mut lease = pool.acquire();
    assert_eq!(lease.header(), (ts(0), FrameShape::default()));
    lease.fill(float(3.5));
    lease.set_header(ts(5), SHAPE);
    assert_eq!(lease.header(), (ts(5), SHAPE));
    pool.release(lease);
    let again = pool.acquire();
    assert_eq!(value(again[3]), 3.5);
    assert_eq!(again.header(), (ts(0), FrameShape::default()));
}

#[test]
fn a_buffer_of_another_pool_is_discarded() {
    let mut small = BufferPool::<F32Bits>::with_buffers(4, 1);
    let mut large = BufferPool::<F32Bits>::with_buffers(8, 1);
    large.release(small.acquire());
    assert_eq!(large.available(), 1);
}

// --- export selection ---

#[test]
fn export_policy_limits_frames_and_preserves_order() {
    let mut cache = cache();
    fill(&mut cache, 10);

    let mut out = Vec::with_capacity(cache.window_capacity());
    let policy = ExportPolicy {
        max_frames: 3,
        max_age: None,
        stride: 1,
        min_interval: None,
    };
    assert_eq!(cache.export_with(&mut out, &policy).frames, 3);
    // Newest three, still written oldest-first.
    assert!((marker_at(&out, 0) - 7.0).abs() < f32::EPSILON);
    assert!((marker_at(&out, 1) - 8.0).abs() < f32::EPSILON);
    assert!((marker_at(&out, 2) - 9.0).abs() < f32::EPSILON);
}

#[test]
fn export_stride_thins_the_selection() {
    let mut cache = cache();
    fill(&mut cache, 9);

    let mut out = Vec::with_capacity(cache.window_capacity());
    let policy = ExportPolicy::all().with_stride(3);
    assert_eq!(cache.export_with(&mut out, &policy).frames, 3);
    // Back from the newest in steps of 3: 8, 5, 2 -> emitted 2, 5, 8.
    assert!((marker_at(&out, 0) - 2.0).abs() < f32::EPSILON);
    assert!((marker_at(&out, 1) - 5.0).abs() < f32::EPSILON);
    assert!((marker_at(&out, 2) - 8.0).abs() < f32::EPSILON);
}

#[test]
fn a_stride_of_zero_takes_every_frame() {
    let mut cache = cache();
    fill(&mut cache, 4);
    let mut out = Vec::new();
    assert_eq!(
        cache
            .export_with(&mut out, &ExportPolicy::all().with_stride(0))
            .frames,
        4
    );
}

#[test]
fn min_interval_thins_by_sensor_clock_not_by_position() {
    // Bursty capture times, as after sensor-side dedup.
    let captures_ms = [0u64, 50, 100, 1000, 1010, 2000, 2005, 2010, 3000];
    let mut cache = cache();
    for (i, ms) in captures_ms.iter().enumerate() {
        cache
            .push_snapshot(&block(i as f32), ts(ms * 1_000_000), SHAPE)
            .expect("well-formed frame");
    }

    let mut out = Vec::with_capacity(cache.window_capacity());
    let policy = ExportPolicy::all().with_min_interval(Span::from_millis(500));
    let outcome = cache.export_with(&mut out, &policy);

    // Back from 3000: keep 3000; 2010 keep; 2005, 2000 skip; 1010 keep;
    // 1000 skip; 100 keep; 50, 0 skip -> emitted 100, 1010, 2010, 3000.
    assert_eq!(outcome.frames, 4);
    let markers: Vec<f32> = (0..4).map(|k| marker_at(&out, k)).collect();
    assert_eq!(markers, vec![2.0, 4.0, 7.0, 8.0]);
}

#[test]
fn min_interval_and_stride_compose() {
    let mut cache = cache();
    for i in 0..10u64 {
        cache
            .push_snapshot(&block(i as f32), ts(i * 100_000_000), SHAPE)
            .expect("well-formed frame");
    }
    let mut out = Vec::with_capacity(cache.window_capacity());

    let outcome = cache.export_with(&mut out, &ExportPolicy::all().with_stride(2));
    assert_eq!(outcome.frames, 5);
    assert!((marker_at(&out, 0) - 1.0).abs() < f32::EPSILON);

    let policy = ExportPolicy::all()
        .with_stride(2)
        .with_min_interval(Span::from_millis(350));
    let outcome = cache.export_with(&mut out, &policy);
    assert_eq!(outcome.frames, 3);
    let markers: Vec<f32> = (0..3).map(|k| marker_at(&out, k)).collect();
    assert_eq!(markers, vec![1.0, 5.0, 9.0]);
}

#[test]
fn export_matching_accepts_an_arbitrary_predicate() {
    let mut cache = cache();
    fill(&mut cache, 8);
    let mut out = Vec::with_capacity(cache.window_capacity());

    let outcome = cache.export_matching(&mut out, |meta| meta.sequence % 2 == 0);
    assert_eq!(outcome.frames, 4);
    assert!((marker_at(&out, 0) - 0.0).abs() < f32::EPSILON);
    assert!((marker_at(&out, 1) - 2.0).abs() < f32::EPSILON);
}

// --- event-correlated export ---

/// Frames one second apart on the sensor clock.
fn spaced(count: u64) -> IngestRingBuffer<F32Bits> {
    let mut cache = cache();
    for i in 0..count {
        cache
            .push_snapshot(&block(i as f32), ts(i * 1_000_000_000), SHAPE)
            .expect("well-formed frame");
    }
    cache
}

#[test]
fn export_around_brackets_an_event_time() {
    let cache = spaced(10);
    let mut out = Vec::with_capacity(cache.window_capacity());

    let outcome = cache.export_around(
        &mut out,
        ts(5_000_000_000),
        Span::from_secs(2),
        Span::from_secs(2),
    );
    assert_eq!(outcome.frames, 5);
    for (position, expected) in (3..=7).enumerate() {
        assert!((marker_at(&out, position) - expected as f32).abs() < f32::EPSILON);
    }
}

#[test]
fn export_around_is_asymmetric_and_clamps_at_the_window_edge() {
    let cache = spaced(10);
    let mut out = Vec::with_capacity(cache.window_capacity());

    let outcome = cache.export_around(
        &mut out,
        ts(4_000_000_000),
        Span::from_secs(3),
        Span::from_nanos(0),
    );
    assert_eq!(outcome.frames, 4);
    assert!((marker_at(&out, 0) - 1.0).abs() < f32::EPSILON);

    // An event older than anything retained yields nothing rather than the
    // nearest frames, which would silently misattribute context.
    let outcome = cache.export_around(
        &mut out,
        ts(500_000_000_000),
        Span::from_secs(1),
        Span::from_secs(1),
    );
    assert_eq!(outcome.frames, 0);
    assert!(out.is_empty());
}

#[test]
fn export_around_reaches_past_the_ends_of_the_clock() {
    let cache = spaced(3);
    let mut out = Vec::new();
    let outcome = cache.export_around(
        &mut out,
        ts(1_000_000_000),
        Span::from_secs(u64::MAX),
        Span::from_secs(u64::MAX),
    );
    assert_eq!(outcome.frames, 3);
}

// --- intermittent residency ---

/// Pushes one frame that arrived when the cache's clock read `millis`.
fn push_at(cache: &mut IngestRingBuffer<F32Bits>, marker: f32, nanos: u64, millis: u64) {
    cache
        .push_snapshot_at(&block(marker), ts(nanos), SHAPE, Span::from_millis(millis))
        .expect("well-formed frame");
}

#[test]
fn stale_frames_are_excluded_by_max_age() {
    let mut cache = cache();
    push_at(&mut cache, 0.0, 0, 10);
    let mut out = Vec::with_capacity(cache.window_capacity());

    let fresh = ExportPolicy::recent(CAP, Span::from_secs(60));
    assert_eq!(
        cache
            .export_with_at(&mut out, &fresh, Span::from_millis(10))
            .frames,
        1
    );

    let strict = ExportPolicy::recent(CAP, Span::from_millis(1));
    let later = Span::from_millis(12);
    assert_eq!(cache.export_with_at(&mut out, &strict, later).frames, 0);
    assert!(out.is_empty());
    let age = cache.newest_age_at(later).expect("one frame retained");
    assert!(age.as_nanos() >= Span::from_millis(2).as_nanos());
    // A frame as old as the limit is still within it.
    assert_eq!(
        cache
            .export_with_at(&mut out, &strict, Span::from_millis(11))
            .frames,
        1
    );
}

#[test]
fn the_clock_of_the_cache_goes_on() {
    let mut cache = cache();
    fill(&mut cache, 1);
    let first = cache.newest_age().expect("one frame retained").as_nanos();
    let mut later = first;
    while later == first {
        later = cache.newest_age().expect("one frame retained").as_nanos();
    }
    assert!(later > first);
    let mut out = Vec::new();
    let nothing_older = ExportPolicy::recent(CAP, Span::from_nanos(0));
    assert!(cache.export_with(&mut out, &nothing_older).is_stale());
}

#[test]
fn clear_drops_retained_frames_without_reallocating() {
    let mut cache = cache();
    fill(&mut cache, 5);
    assert_eq!(cache.len(), 5);

    cache.clear();
    assert!(cache.is_empty());
    assert_eq!(cache.len(), 0);
    assert!(cache.newest_age().is_none());
    assert_eq!(cache.frame_metadata().len(), 0);

    // Still usable, and sequence numbering carries across the gap.
    cache
        .push_snapshot(&block(99.0), ts(99), SHAPE)
        .expect("well-formed frame");
    let meta = cache.frame_metadata();
    assert_eq!(meta.len(), 1);
    assert_eq!(meta[0].sequence, 5);
}

#[test]
fn clear_overwrites_the_token_store() {
    let mut cache = cache();
    cache
        .push_snapshot(&block(7.5), ts(1), SHAPE)
        .expect("well-formed frame");

    let mut out = Vec::with_capacity(cache.window_capacity());
    assert_eq!(cache.export_into(&mut out).frames, 1);
    assert!((value(out[0]) - 7.5).abs() < f32::EPSILON);

    cache.clear();

    // A rejected push leaves the slot alone; the old contents must not resurface.
    let short = vec![float(0.0); 8];
    assert!(cache.push_snapshot(&short, ts(2), SHAPE).is_err());
    assert!(cache.export_into(&mut out).is_blind());
    assert!(out.is_empty());

    cache
        .push_snapshot(&block(0.25), ts(3), SHAPE)
        .expect("well-formed frame");
    assert_eq!(cache.export_into(&mut out).frames, 1);
    assert!(out
        .iter()
        .all(|v| (value(*v) - 0.25).abs() < f32::EPSILON));
}

#[test]
fn a_cleared_window_wraps_around_as_before() {
    let mut cache = IngestRingBuffer::<F32Bits>::new(SHAPE, 3);
    fill(&mut cache, 5);
    cache.clear();
    for i in 10..14u64 {
        let evicted = cache
            .push_snapshot(&block(i as f32), ts(i), SHAPE)
            .expect("well-formed frame");
        assert_eq!(evicted, i == 13);
    }
    let payload = cache.export_linearized_payload();
    let markers: Vec<f32> = (0..3).map(|k| marker_at(&payload, k)).collect();
    assert_eq!(markers, vec![11.0, 12.0, 13.0]);
    let sequences: Vec<u64> = cache.frame_metadata().iter().map(|m| m.sequence).collect();
    assert_eq!(sequences, vec![6, 7, 8]);
}

// --- staleness is a deployment property ---

#[test]
fn staleness_bound_cannot_be_widened_by_a_caller() {
    let mut cache = cache();
    cache.set_staleness_bound(Some(Span::from_millis(1)));
    push_at(&mut cache, 0.0, 0, 10);

    let mut out = Vec::with_capacity(cache.window_capacity());
    let at_once = Span::from_millis(10);
    assert_eq!(
        cache
            .export_with_at(&mut out, &ExportPolicy::all(), at_once)
            .frames,
        1
    );

    let later = Span::from_millis(13);
    assert_eq!(
        cache
            .export_with_at(&mut out, &ExportPolicy::all(), later)
            .frames,
        0
    );
    let generous = ExportPolicy::recent(CAP, Span::from_secs(3600));
    assert_eq!(cache.export_with_at(&mut out, &generous, later).frames, 0);
    assert_eq!(cache.export_into_at(&mut out, later).frames, 0);
    assert!(out.is_empty());
}

#[test]
fn staleness_bound_applies_to_event_correlated_export() {
    let mut cache = cache();
    cache.set_staleness_bound(Some(Span::from_millis(1)));
    push_at(&mut cache, 1.0, 5_000_000_000, 10);

    let mut out = Vec::with_capacity(cache.window_capacity());
    let around = |cache: &IngestRingBuffer<F32Bits>, out: &mut Vec<F32Bits>, now: u64| {
        cache.export_around_at(
            out,
            ts(5_000_000_000),
            Span::from_secs(10),
            Span::from_secs(10),
            Span::from_millis(now),
        )
    };
    assert_eq!(around(&cache, &mut out, 10).frames, 1);
    assert_eq!(around(&cache, &mut out, 13).frames, 0);
    assert_eq!(
        cache
            .export_matching_at(&mut out, |_| true, Span::from_millis(13))
            .frames,
        0
    );
}

#[test]
fn a_caller_can_still_narrow_below_the_bound() {
    let mut cache = cache();
    cache.set_staleness_bound(Some(Span::from_secs(3600)));
    assert_eq!(cache.staleness_bound(), Some(Span::from_secs(3600)));
    push_at(&mut cache, 0.0, 0, 10);

    let mut out = Vec::with_capacity(cache.window_capacity());
    let later = Span::from_millis(13);
    let strict = ExportPolicy::recent(CAP, Span::from_millis(1));
    assert_eq!(cache.export_with_at(&mut out, &strict, later).frames, 0);
    assert_eq!(
        cache
            .export_with_at(&mut out, &ExportPolicy::all(), later)
            .frames,
        1
    );
}

// --- the person cannot see how much context the agent had ---

#[test]
fn an_empty_cache_is_distinguishable_from_a_stale_one() {
    let mut cache = cache();
    cache.set_staleness_bound(Some(Span::from_millis(1)));
    let mut out = Vec::with_capacity(cache.window_capacity());
    let at_once = Span::from_millis(10);

    let outcome = cache.export_with_at(&mut out, &ExportPolicy::all(), at_once);
    assert!(outcome.is_blind());
    assert!(!outcome.is_stale());
    assert_eq!(outcome.retained, 0);

    for i in 0..3u64 {
        push_at(&mut cache, i as f32, i, 10);
    }

    let outcome = cache.export_with_at(&mut out, &ExportPolicy::all(), at_once);
    assert_eq!(outcome.frames, 3);
    assert_eq!(outcome.excluded_stale, 0);
    assert!(!outcome.is_blind() && !outcome.is_stale());

    let outcome = cache.export_with_at(&mut out, &ExportPolicy::all(), Span::from_millis(13));
    assert!(outcome.is_empty());
    assert!(outcome.is_stale());
    assert!(!outcome.is_blind());
    assert_eq!(outcome.retained, 3);
    assert_eq!(outcome.excluded_stale, 3);
}

#[test]
fn outcome_reports_staleness_on_event_correlated_export() {
    let mut cache = cache();
    cache.set_staleness_bound(Some(Span::from_millis(1)));
    push_at(&mut cache, 1.0, 5_000_000_000, 10);

    let mut out = Vec::with_capacity(cache.window_capacity());
    let outcome = cache.export_around_at(
        &mut out,
        ts(5_000_000_000),
        Span::from_secs(1),
        Span::from_secs(1),
        Span::from_millis(13),
    );
    assert!(outcome.is_stale());
    assert_eq!(outcome.excluded_stale, 1);
}

#[test]
fn stale_and_written_frames_are_counted_apart() {
    let mut cache = cache();
    for i in 0..6u64 {
        push_at(&mut cache, i as f32, i, i * 10);
    }
    let mut out = Vec::new();
    let policy = ExportPolicy::recent(2, Span::from_millis(25));
    let outcome = cache.export_with_at(&mut out, &policy, Span::from_millis(50));
    // Ages are 50, 40, 30, 20, 10 and 0 ms.
    assert_eq!(outcome.retained, 6);
    assert_eq!(outcome.excluded_stale, 3);
    assert_eq!(outcome.frames, 2);
    let markers: Vec<f32> = (0..2).map(|k| marker_at(&out, k)).collect();
    assert_eq!(markers, vec![4.0, 5.0]);
}
