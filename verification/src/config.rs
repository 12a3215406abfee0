//! Frame geometry.

use vstd::prelude::*;

verus! {

/// System dimension primitives of the visual encoder and the frame cache.
pub struct IngestConfig;

impl IngestConfig {
    /// Patch sequence length of one encoded snapshot (27x27 grid at 384px, patch 14).
    pub const PATCH_COUNT: usize = 729;

    /// Hidden width of the visual encoder.
    pub const ENCODER_DIM: usize = 1152;

    /// Token count emitted per frame by the resampler. This is a sequence
    /// length, not a vector width: a frame carries `COMPRESSED_DIM * target_dim`
    /// elements.
    pub const COMPRESSED_DIM: usize = 64;

    /// Tokens in one frame of the default geometry.
    pub const TOKENS_PER_FRAME: usize = 64;

    /// Depth of the timeline cache (10s at 3 FPS).
    pub const MAX_FIFO_FRAMES: usize = 30;

    /// Depth to start a deployment from (10s at 3 FPS). It is not a limit.
    pub const DEFAULT_FIFO_FRAMES: usize = 30;
}

/// Geometry of one frame: a row-major block of `tokens` rows, each `dim`
/// elements wide.
///
/// Two shapes can hold the same number of elements and still be different
/// geometries, so shapes are compared field by field.
#[derive(Clone, Copy, Debug, PartialEq, Eq, Structural)]
pub struct FrameShape {
    /// Tokens per frame.
    pub tokens: usize,
    /// Width of one token, which is the width of the target model.
    pub dim: usize,
}

impl FrameShape {
    /// Elements in one frame of this shape.
    pub open spec fn elements(self) -> nat {
        self.tokens as nat * self.dim as nat
    }

    /// The element count can be written in a `usize`.
    pub open spec fn countable(self) -> bool {
        self.elements() <= usize::MAX
    }

    /// A frame of `tokens` tokens, each `dim` elements wide.
    pub fn new(tokens: usize, dim: usize) -> (shape: Self)
        ensures
            shape == (FrameShape { tokens, dim }),
    {
        FrameShape { tokens, dim }
    }

    /// The default geometry for a model of width `target_dim`:
    /// [`IngestConfig::TOKENS_PER_FRAME`] tokens of that width.
    pub fn for_target(target_dim: usize) -> (shape: Self)
        ensures
            shape == (FrameShape { tokens: IngestConfig::TOKENS_PER_FRAME, dim: target_dim }),
    {
        FrameShape { tokens: IngestConfig::TOKENS_PER_FRAME, dim: target_dim }
    }

    /// Elements in one frame of this shape.
    pub fn frame_len(&self) -> (len: usize)
        requires
            self.countable(),
        ensures
            len == self.elements(),
            len == self.tokens * self.dim,
    {
        self.tokens * self.dim
    }

    /// Elements in a window of `capacity` frames of this shape, or `None`
    /// where that count, or that of one frame, does not fit in a `usize`.
    pub fn window_len(&self, capacity: usize) -> (len: Option<usize>)
        ensures
            len is Some <==> self.countable() && self.elements() * capacity <= usize::MAX,
            len matches Some(n) ==> n == self.elements() * capacity,
            len is Some <==> self.tokens * self.dim <= usize::MAX && self.tokens * self.dim
                * capacity <= usize::MAX,
            len matches Some(n) ==> n == self.tokens * self.dim * capacity,
    {
        match self.tokens.checked_mul(self.dim) {
            Some(frame_len) => frame_len.checked_mul(capacity),
            None => None,
        }
    }
}

impl Default for FrameShape {
    /// The shape that a frame without a header declares: no tokens, no width.
    fn default() -> (shape: Self)
        ensures
            shape == (FrameShape { tokens: 0, dim: 0 }),
    {
        FrameShape { tokens: 0, dim: 0 }
    }
}

} // verus!
