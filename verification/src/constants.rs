//! Fixed sizes and tag bytes of the container format.

use vstd::prelude::*;

verus! {

/// Number of bytes in the fixed-size header: four magic bytes, two big-endian
/// `u32` dimensions, a channel-count byte and a colourspace byte.
pub const HEADER_LENGTH: usize = 14;

/// Number of bytes in the fixed end-of-stream marker.
pub const TRAILER_LENGTH: usize = 8;

/// Smallest input that can hold a header and a trailer.
pub const MIN_INPUT_LENGTH: usize = HEADER_LENGTH + TRAILER_LENGTH;

/// Tag byte announcing a literal red/green/blue triple.
pub const RGB_BYTE: u8 = 0xFE;

/// Tag byte announcing a literal red/green/blue/alpha quadruple.
pub const RGBA_BYTE: u8 = 0xFF;

/// Smallest one-byte tag whose two high bits mark a differential token.
pub const DIFF_TAG: u8 = 0x40;

/// Smallest one-byte tag whose two high bits mark a luma token.
pub const LUMA_TAG: u8 = 0x80;

/// Smallest one-byte tag whose two high bits mark a run-length token.
pub const RUN_TAG: u8 = 0xC0;

} // verus!
