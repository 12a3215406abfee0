//! Elements, lengths of time, geometry and counters.

use vision_ingest::orchestrator::{FrameSender, IngestControl, SendReply};
use vision_ingest::pool::BufferPool;
use vision_ingest::selection::tightest_limit;
use vision_ingest::{
    CaptureTimestamp, F32Bits, F64Bits, FrameShape, IngestConfig, IngestError, IngestStats, Span,
    TokenElement,
};

#[test]
fn single_precision_finiteness() {
    let cases: [f32; 10] = [
        0.0,
        -0.0,
        1.5,
        f32::MAX,
        f32::MIN,
        f32::MIN_POSITIVE,
        1.0e-45,
        f32::INFINITY,
        f32::NEG_INFINITY,
        f32::NAN,
    ];
    for case in cases {
        assert_eq!(
            F32Bits::from_bits(case.to_bits()).is_finite(),
            case.is_finite()
        );
    }
    assert_eq!(f32::from_bits(F32Bits::default_element().bits), 0.0);
}

#[test]
fn double_precision_finiteness() {
    let cases: [f64; 8] = [
        0.0,
        -1.5,
        f64::MAX,
        f64::MIN_POSITIVE,
        5.0e-324,
        f64::INFINITY,
        f64::NEG_INFINITY,
        f64::NAN,
    ];
    for case in cases {
        assert_eq!(
            F64Bits::from_bits(case.to_bits()).is_finite(),
            case.is_finite()
        );
    }
    assert_eq!(f64::from_bits(F64Bits::default_element().bits), 0.0);
}

#[test]
fn lengths_of_time() {
    assert_eq!(Span::from_secs(2), Span::from_nanos(2_000_000_000));
    assert_eq!(Span::from_millis(3), Span::from_nanos(3_000_000));
    assert_eq!(
        Span::from_secs(u64::MAX).as_nanos(),
        18_446_744_073_709_551_615_000_000_000
    );
    assert_eq!(
        Span::from_nanos(5).saturating_sub(Span::from_nanos(3)),
        Span::from_nanos(2)
    );
    assert_eq!(
        Span::from_nanos(3).saturating_sub(Span::from_nanos(5)),
        Span::from_nanos(0)
    );
    assert_eq!(CaptureTimestamp::from_nanos(7).as_nanos(), 7);
    assert_eq!(CaptureTimestamp::default().as_nanos(), 0);
}

#[test]
fn the_shorter_limit_holds() {
    let short = Some(Span::from_millis(1));
    let long = Some(Span::from_millis(9));
    assert_eq!(tightest_limit(short, long), short);
    assert_eq!(tightest_limit(long, short), short);
    assert_eq!(tightest_limit(None, long), long);
    assert_eq!(tightest_limit(short, None), short);
    assert_eq!(tightest_limit(None, None), None);
}

#[test]
fn geometry() {
    assert_eq!(IngestConfig::PATCH_COUNT, 729);
    assert_eq!(IngestConfig::ENCODER_DIM, 1152);
    assert_eq!(IngestConfig::DEFAULT_FIFO_FRAMES, 30);
    let shape = FrameShape::for_target(2048);
    assert_eq!(shape, FrameShape::new(64, 2048));
    assert_eq!(shape.frame_len(), 131_072);
    assert_eq!(
        shape.window_len(IngestConfig::DEFAULT_FIFO_FRAMES),
        Some(3_932_160)
    );
    assert_eq!(shape.window_len(usize::MAX / 2), None);
    assert_eq!(FrameShape::new(usize::MAX, 2).window_len(0), None);
    assert_eq!(FrameShape::default(), FrameShape::new(0, 0));
}

#[test]
fn counters_go_by_the_answer() {
    let shape = FrameShape::new(1, 1);
    let mut stats = IngestStats::new();
    stats.record_push(&Ok(false));
    stats.record_push(&Ok(true));
    stats.record_push(&Err(IngestError::LengthMismatch {
        expected: 1,
        actual: 2,
    }));
    stats.record_push(&Err(IngestError::ShapeMismatch {
        expected: shape,
        actual: shape,
    }));
    stats.record_push(&Err(IngestError::NonFiniteElement { index: 0 }));
    stats.record_push(&Err(IngestError::NonFiniteElement { index: 1 }));
    assert_eq!(stats.accepted(), 2);
    assert_eq!(stats.rejected_length(), 1);
    assert_eq!(stats.rejected_shape(), 1);
    assert_eq!(stats.rejected_non_finite(), 2);
    assert_eq!(stats.rejected_total(), 4);
    assert_eq!(stats.dropped_queue_full(), 0);
    assert_eq!(stats.dropped_suspended(), 0);
}

#[test]
fn an_answer_of_the_queue_is_settled() {
    let mut pool = BufferPool::<F64Bits>::with_buffers(2, 2);
    let mut stats = IngestStats::new();

    let lease = pool.acquire();
    assert!(!FrameSender::settle(
        SendReply::Full(lease),
        &mut stats,
        &mut pool
    ));
    assert_eq!(stats.dropped_queue_full(), 1);
    assert_eq!(pool.available(), 2);

    let lease = pool.acquire();
    assert!(!FrameSender::settle(
        SendReply::Closed(lease),
        &mut stats,
        &mut pool
    ));
    assert_eq!(stats.dropped_queue_full(), 1);
    assert_eq!(pool.available(), 2);

    assert!(FrameSender::<F64Bits>::settle(
        SendReply::Sent,
        &mut stats,
        &mut pool
    ));
    assert_eq!(pool.available(), 2);
}

#[test]
fn ingest_switches_off_and_on() {
    let mut control = IngestControl::new();
    assert!(control.is_active());
    control.suspend();
    assert!(!control.is_active());
    control.resume();
    assert!(control.is_active());
}
