//! Encoder for the WTX texture container: a fixed 44-byte header followed by
//! block-compressed pixel data.
//!
//! The pipeline normalizes the raster's orientation, measures per-channel
//! averages, selects a mip-chain policy and a block codec, invokes the
//! external compression routine, and assembles the byte-exact container.

pub mod average;
pub mod batch;
pub mod codec;
pub mod container;
pub mod errors;
pub mod raster;
