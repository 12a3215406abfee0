//! Bounded, snapshot-driven ingest path for compressed visual tokens.
//!
//! A fixed-capacity cyclic cache ([`ring_buffer::IngestRingBuffer`]) holds the
//! most recent frames that a remote sensor device sent. Frames travel to it in
//! buffers leased from a [`pool::BufferPool`], through a bounded queue
//! ([`orchestrator::FrameSender`]), and past a guard ([`StreamGuard`]) that
//! checks geometry and finiteness. A reader takes a selection of the window
//! out with an [`selection::ExportPolicy`].
//!
//! Encoder hidden-state extraction and resampler compression are upstream of
//! this crate; [`IngestConfig::PATCH_COUNT`] and [`IngestConfig::ENCODER_DIM`]
//! are published for those producers to size against.

mod call;
pub mod config;
pub mod drain;
pub mod element;
pub mod frame;
pub mod guard;
pub mod laws;
pub mod orchestrator;
pub mod pool;
pub mod ring_buffer;
pub mod selection;
pub mod stats;
pub mod time;
pub mod window;

pub use crate::config::{FrameShape, IngestConfig};
pub use crate::element::{F32Bits, F64Bits, TokenElement};
pub use crate::frame::{CompressedFrame, FrameMeta};
pub use crate::guard::{IngestError, StreamGuard};
pub use crate::stats::IngestStats;
pub use crate::time::{CaptureTimestamp, Span};
