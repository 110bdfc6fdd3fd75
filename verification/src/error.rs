//! Typed failures reported by the decoder.

use vstd::prelude::*;

verus! {

/// A defect found while validating the fixed-size header or the trailing
/// marker.  Each variant carries the expected and found values.
#[derive(Debug)]
#[allow(inconsistent_fields)]
pub enum HeaderError {
    /// The input is shorter than a header plus a trailer.
    MalformedInput { minimum: usize, found: usize },
    /// The four leading magic bytes or the eight trailing marker bytes differ
    /// from the fixed sequences the format prescribes.
    InvalidMagicBytes { expected: Vec<u8>, found: Vec<u8> },
    /// The channel-count byte names neither three nor four channels.
    InvalidColourChannels { expected: Vec<u8>, found: u8 },
    /// The colourspace byte names neither the gamma-corrected nor the linear
    /// colourspace.
    InvalidColourSpace { expected: Vec<u8>, found: u8 },
}

/// Everything that can go wrong while decoding a stream.
#[derive(Debug)]
pub enum DecodeError {
    /// The header or trailer failed validation.
    InvalidHeader(HeaderError),
    /// A multi-byte token began but the body ended before its trailing bytes
    /// were available.
    TruncatedStream,
    /// The body decoded to a pixel count other than width times height.
    SizeMismatch { expected: u64, found: u64 },
}

impl From<HeaderError> for DecodeError {
    /// Wraps a header defect as a decode failure.
    fn from(e: HeaderError) -> (converted: DecodeError) {
        DecodeError::InvalidHeader(e)
    }
}

impl vstd::std_specs::convert::FromSpecImpl<HeaderError> for DecodeError {
    open spec fn obeys_from_spec() -> bool {
        true
    }

    open spec fn from_spec(e: HeaderError) -> DecodeError {
        DecodeError::InvalidHeader(e)
    }
}

} // verus!
