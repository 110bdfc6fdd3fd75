//! Decoder for a compact lossless image container.
//!
//! A stream starts with a magic-prefixed fixed-size header, carries a body of
//! literal, differential, cache-indexed and run-length encoded pixel tokens,
//! and ends with a fixed eight-byte marker.  [`decode::decode`] validates the
//! header, replays the token stream into a pixel sequence and hands the
//! result back as a flat byte buffer, or reports a typed error.

pub mod constants;
pub mod decode;
pub mod error;
pub mod model;

pub use crate::model::{ColoursToRaw, Pixel, PushUnchecked, RawToColours};
