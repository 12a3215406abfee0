//! Frames and what the cache remembers of them.

use crate::element::TokenElement;
use crate::time::{CaptureTimestamp, Span};
use vstd::prelude::*;

verus! {

/// What the cache keeps about a frame beside its tokens.
#[derive(Clone, Copy, Debug, PartialEq, Eq, Structural)]
pub struct FrameMeta {
    /// Capture time reported by the sensor device.
    pub capture: CaptureTimestamp,
    /// Reading of the cache's own clock when the frame was accepted. Valid
    /// only for recency checks on this node.
    pub arrival: Span,
    /// Position of the frame in the sequence of all accepted frames.
    pub sequence: u64,
}

/// An owned frame of downsampled visual tokens, in the default geometry.
#[derive(Clone, Debug)]
pub struct CompressedFrame<T: TokenElement> {
    /// Capture time reported by the sensor device.
    pub timestamp: CaptureTimestamp,
    /// Row-major token block of `IngestConfig::COMPRESSED_DIM * dimensions` elements.
    pub token_data: Vec<T>,
    /// Width of the text model that this frame was projected for.
    pub dimensions: usize,
}

} // verus!
