//! Verified core of a media pipeline library: pixel formats, frame metadata,
//! plane layouts, buffer pools, queues, packed transforms, counters, raw
//! pixel conversions, image repacking, capture configuration checks, the
//! codec registry, and the decisions around FFmpeg encoders and decoders.
use vstd::prelude::*;

pub mod format;
pub mod meta;
pub mod metrics;
pub mod pool;
pub mod controls;
pub mod queue;
pub mod frame;
pub mod rows;
pub mod transform;
pub mod stats;
pub mod raw;
pub mod bayer;
pub mod yuv;
pub mod packed422;
pub mod image;
pub mod jpeg;
pub mod av;
pub mod ids;
pub mod registry;
pub mod capture;
pub mod encoder;
pub mod decoder;
pub mod image_pools;

verus! {
} // verus!
