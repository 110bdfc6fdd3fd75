//! Header extraction and the tag-dispatch decode engine.

use vstd::prelude::*;

use crate::constants::{
    DIFF_TAG, HEADER_LENGTH, LUMA_TAG, MIN_INPUT_LENGTH, RGBA_BYTE, RGB_BYTE, RUN_TAG,
};
use crate::error::{DecodeError, HeaderError};
use crate::model::{
    spec_channel, spec_insert, spec_initial_pixel, spec_pixel_add, spec_raw_bytes, ColourChannels,
    Colourspace, ColoursToRaw, Pixel, PushUnchecked, QoiHeader, SeenPixels,
};

verus! {

/// The four magic bytes every stream starts with.
pub open spec fn spec_magic() -> Seq<u8> {
    seq![0x71u8, 0x6Fu8, 0x69u8, 0x66u8]
}

/// The eight marker bytes every stream ends with.
pub open spec fn spec_trailer() -> Seq<u8> {
    seq![0u8, 0u8, 0u8, 0u8, 0u8, 0u8, 0u8, 1u8]
}

/// Four bytes recombined as a big-endian 32-bit value.
pub open spec fn spec_be32(b0: u8, b1: u8, b2: u8, b3: u8) -> int {
    b0 * 0x1000000 + b1 * 0x10000 + b2 * 0x100 + b3
}

/// The width a stream declares.
pub open spec fn spec_width(d: Seq<u8>) -> int {
    spec_be32(d[4], d[5], d[6], d[7])
}

/// The height a stream declares.
pub open spec fn spec_height(d: Seq<u8>) -> int {
    spec_be32(d[8], d[9], d[10], d[11])
}

/// The number of pixels a stream declares.
pub open spec fn spec_pixel_count(d: Seq<u8>) -> int {
    spec_width(d) * spec_height(d)
}

/// Whether the stream starts with the magic bytes.
pub open spec fn spec_magic_ok(d: Seq<u8>) -> bool {
    d.subrange(0, 4) == spec_magic()
}

/// Whether the stream ends with the trailing marker.
pub open spec fn spec_trailer_ok(d: Seq<u8>) -> bool {
    d.subrange(d.len() - 8, d.len() as int) == spec_trailer()
}

/// Whether a channel-count byte is valid.
pub open spec fn spec_channels_ok(b: u8) -> bool {
    b == 3 || b == 4
}

/// Whether a colourspace byte is valid.
pub open spec fn spec_colourspace_ok(b: u8) -> bool {
    b == 0 || b == 1
}

/// Whether the header and trailer of a stream validate.
pub open spec fn spec_header_ok(d: Seq<u8>) -> bool {
    &&& d.len() >= 22
    &&& spec_magic_ok(d)
    &&& spec_trailer_ok(d)
    &&& spec_channels_ok(d[12])
    &&& spec_colourspace_ok(d[13])
}

/// The token bytes of a stream: everything between header and trailer.
pub open spec fn spec_body(d: Seq<u8>) -> Seq<u8> {
    d.subrange(14, d.len() - 8)
}

/// The pixel a differential token reconstructs: each two-bit field of the tag
/// byte, minus two, moves its colour channel with 8-bit wraparound.
pub open spec fn spec_diff_pixel(prev: Pixel, tag: u8) -> Pixel {
    spec_pixel_add(prev, (tag / 16) % 4 - 2, (tag / 4) % 4 - 2, tag % 4 - 2)
}

/// The pixel a luma token reconstructs: the tag byte's low six bits minus 32
/// move green, and the extra byte's nibbles, each offset by the green delta
/// minus eight, move red and blue.
pub open spec fn spec_luma_pixel(prev: Pixel, tag: u8, extra: u8) -> Pixel {
    let dg = (tag % 64) - 32;
    spec_pixel_add(prev, dg - 8 + extra / 16, dg, dg - 8 + extra % 16)
}

/// `count` repetitions of one pixel.
pub open spec fn spec_run(p: Pixel, count: int) -> Seq<Pixel> {
    Seq::new(count as nat, |i: int| p)
}

/// A prefix glued onto a decode outcome; a failed outcome stays failed.
pub open spec fn opt_prepend(prefix: Seq<Pixel>, rest: Option<Seq<Pixel>>) -> Option<Seq<Pixel>> {
    match rest {
        Some(s) => Some(prefix + s),
        None => None,
    }
}

/// The pixels produced from `cursor` to the end of `body` given the running
/// state, or `None` if a multi-byte token is cut short.
pub open spec fn spec_decode_from(
    body: Seq<u8>,
    cursor: int,
    prev: Pixel,
    cache: Seq<Pixel>,
) -> Option<Seq<Pixel>>
    decreases body.len() - cursor,
{
    if cursor < 0 || cursor >= body.len() {
        Some(Seq::empty())
    } else {
        let tag = body[cursor];
        if tag == RGB_BYTE {
            if cursor + 4 <= body.len() {
                let px = Pixel {
                    red: body[cursor + 1],
                    green: body[cursor + 2],
                    blue: body[cursor + 3],
                    alpha: prev.alpha,
                };
                opt_prepend(seq![px], spec_decode_from(body, cursor + 4, px, spec_insert(cache, px)))
            } else {
                None
            }
        } else if tag == RGBA_BYTE {
            if cursor + 5 <= body.len() {
                let px = Pixel {
                    red: body[cursor + 1],
                    green: body[cursor + 2],
                    blue: body[cursor + 3],
                    alpha: body[cursor + 4],
                };
                opt_prepend(seq![px], spec_decode_from(body, cursor + 5, px, spec_insert(cache, px)))
            } else {
                None
            }
        } else if tag < DIFF_TAG {
            let px = cache[tag as int];
            opt_prepend(seq![px], spec_decode_from(body, cursor + 1, px, cache))
        } else if tag < LUMA_TAG {
            let px = spec_diff_pixel(prev, tag);
            opt_prepend(seq![px], spec_decode_from(body, cursor + 1, px, spec_insert(cache, px)))
        } else if tag < RUN_TAG {
            if cursor + 2 <= body.len() {
                let px = spec_luma_pixel(prev, tag, body[cursor + 1]);
                opt_prepend(seq![px], spec_decode_from(body, cursor + 2, px, spec_insert(cache, px)))
            } else {
                None
            }
        } else {
            opt_prepend(spec_run(prev, (tag % 64) + 1), spec_decode_from(body, cursor + 1, prev, cache))
        }
    }
}

/// The pixel sequence a whole stream's body decodes to, from the initial
/// previous pixel and the pre-seeded cache.
pub open spec fn spec_decoded_pixels(d: Seq<u8>) -> Option<Seq<Pixel>> {
    spec_decode_from(spec_body(d), 0, spec_initial_pixel(), SeenPixels::spec_initial())
}

/// Exactly when `extract_header` reports `e` for the stream `d`.
pub open spec fn spec_header_error(d: Seq<u8>, e: DecodeError) -> bool {
    match e {
        DecodeError::InvalidHeader(he) => match he {
            HeaderError::MalformedInput { minimum, found } => {
                &&& d.len() < 22
                &&& minimum == 22
                &&& found == d.len()
            },
            HeaderError::InvalidMagicBytes { expected, found } => {
                &&& d.len() >= 22
                &&& if !spec_magic_ok(d) {
                    expected@ == spec_magic() && found@ == d.subrange(0, 4)
                } else {
                    &&& !spec_trailer_ok(d)
                    &&& expected@ == spec_trailer()
                    &&& found@ == d.subrange(d.len() - 8, d.len() as int)
                }
            },
            HeaderError::InvalidColourChannels { expected, found } => {
                &&& d.len() >= 22
                &&& spec_magic_ok(d)
                &&& spec_trailer_ok(d)
                &&& !spec_channels_ok(d[12])
                &&& expected@ == seq![3u8, 4u8]
                &&& found == d[12]
            },
            HeaderError::InvalidColourSpace { expected, found } => {
                &&& d.len() >= 22
                &&& spec_magic_ok(d)
                &&& spec_trailer_ok(d)
                &&& spec_channels_ok(d[12])
                &&& !spec_colourspace_ok(d[13])
                &&& expected@ == seq![0u8, 1u8]
                &&& found == d[13]
            },
        },
        DecodeError::TruncatedStream => false,
        DecodeError::SizeMismatch { .. } => false,
    }
}

/// Exactly when `decode` reports `e` for the stream `d`.
pub open spec fn spec_decode_error(d: Seq<u8>, e: DecodeError) -> bool {
    match e {
        DecodeError::InvalidHeader(_) => spec_header_error(d, e),
        DecodeError::TruncatedStream => spec_header_ok(d) && spec_decoded_pixels(d) is None,
        DecodeError::SizeMismatch { expected, found } => {
            &&& spec_header_ok(d)
            &&& spec_decoded_pixels(d) matches Some(pixels) && pixels.len() != spec_pixel_count(d)
                && expected == spec_pixel_count(d) && found == pixels.len()
        },
    }
}

/// A run-length token appends exactly `v + 1` copies of the previous pixel,
/// where `v` is the tag byte's low six bits, and hands the previous pixel and
/// the cache on to the rest of the stream unchanged.
pub proof fn lemma_run_token(body: Seq<u8>, cursor: int, prev: Pixel, cache: Seq<Pixel>)
    requires
        0 <= cursor < body.len(),
        body[cursor] >= RUN_TAG,
        body[cursor] != RGB_BYTE,
        body[cursor] != RGBA_BYTE,
    ensures
        spec_decode_from(body, cursor, prev, cache) == opt_prepend(
            spec_run(prev, (body[cursor] % 64) + 1),
            spec_decode_from(body, cursor + 1, prev, cache),
        ),
{
}

/// A differential token reconstructs each colour channel as the previous
/// channel plus its two-bit field minus two, modulo 256, each channel
/// independently, and carries alpha over unchanged.
pub proof fn lemma_diff_token(prev: Pixel, tag: u8)
    requires
        DIFF_TAG <= tag < LUMA_TAG,
    ensures
        spec_diff_pixel(prev, tag).red == (prev.red + ((tag / 16) % 4 - 2)) % 256,
        spec_diff_pixel(prev, tag).green == (prev.green + ((tag / 4) % 4 - 2)) % 256,
        spec_diff_pixel(prev, tag).blue == (prev.blue + (tag % 4 - 2)) % 256,
        spec_diff_pixel(prev, tag).alpha == prev.alpha,
{
}

/// The body that encodes a pixel grid as nothing but literal
/// red/green/blue/alpha tokens: five bytes per pixel.
pub open spec fn spec_literal_body(pixels: Seq<Pixel>) -> Seq<u8> {
    Seq::new(
        (5 * pixels.len()) as nat,
        |i: int|
            if i % 5 == 0 {
                RGBA_BYTE
            } else {
                spec_channel(pixels[i / 5], i % 5 - 1)
            },
    )
}

/// A body of literal tokens decodes to exactly the pixels it spells, from any
/// running state.
pub proof fn lemma_literal_stream_decodes(
    body: Seq<u8>,
    cursor: int,
    pixels: Seq<Pixel>,
    prev: Pixel,
    cache: Seq<Pixel>,
)
    requires
        0 <= cursor <= body.len(),
        body.subrange(cursor, body.len() as int) == spec_literal_body(pixels),
    ensures
        spec_decode_from(body, cursor, prev, cache) == Some(pixels),
    decreases pixels.len(),
{
    let suffix = body.subrange(cursor, body.len() as int);
    assert(suffix.len() == 5 * pixels.len());
    if pixels.len() == 0 {
        assert(Seq::<Pixel>::empty() =~= pixels);
    } else {
        assert(body[cursor] == suffix[0]);
        assert(body[cursor + 1] == suffix[1]);
        assert(body[cursor + 2] == suffix[2]);
        assert(body[cursor + 3] == suffix[3]);
        assert(body[cursor + 4] == suffix[4]);
        let px = Pixel {
            red: body[cursor + 1],
            green: body[cursor + 2],
            blue: body[cursor + 3],
            alpha: body[cursor + 4],
        };
        assert(px == pixels[0]);
        let rest = pixels.subrange(1, pixels.len() as int);
        let tail = body.subrange(cursor + 5, body.len() as int);
        assert forall|j: int| 0 <= j < tail.len() implies tail[j] == spec_literal_body(rest)[j] by {
            assert(tail[j] == suffix[5 + j]);
            vstd::arithmetic::div_mod::lemma_fundamental_div_mod(j, 5);
            vstd::arithmetic::div_mod::lemma_fundamental_div_mod_converse(
                5 + j,
                5,
                j / 5 + 1,
                j % 5,
            );
            if j % 5 != 0 {
                assert(rest[j / 5] == pixels[j / 5 + 1]);
            }
        }
        assert(tail =~= spec_literal_body(rest));
        lemma_literal_stream_decodes(body, cursor + 5, rest, px, spec_insert(cache, px));
        assert(spec_decode_from(body, cursor, prev, cache) == opt_prepend(
            seq![px],
            Some(rest),
        ));
        assert(seq![px] + rest =~= pixels);
    }
}

/// The four bytes of a big-endian 32-bit value.
pub open spec fn spec_be_bytes(v: int) -> Seq<u8> {
    seq![
        ((v / 0x1000000) % 256) as u8,
        ((v / 0x10000) % 256) as u8,
        ((v / 0x100) % 256) as u8,
        (v % 256) as u8,
    ]
}

/// A byte-perfect stream for a pixel grid: header, one literal token per
/// pixel, trailer.
pub open spec fn spec_literal_encoding(
    width: u32,
    height: u32,
    channels: u8,
    colourspace: u8,
    pixels: Seq<Pixel>,
) -> Seq<u8> {
    spec_magic() + spec_be_bytes(width as int) + spec_be_bytes(height as int)
        + seq![channels, colourspace] + spec_literal_body(pixels) + spec_trailer()
}

/// Decoding a byte-perfect encoding of a known pixel grid under a valid
/// header reproduces that grid exactly.
pub proof fn lemma_decode_reproduces_grid(
    width: u32,
    height: u32,
    channels: u8,
    colourspace: u8,
    pixels: Seq<Pixel>,
    enc: Seq<u8>,
)
    requires
        enc == spec_literal_encoding(width, height, channels, colourspace, pixels),
        width * height == pixels.len(),
        spec_channels_ok(channels),
        spec_colourspace_ok(colourspace),
    ensures
        spec_header_ok(enc),
        spec_width(enc) == width,
        spec_height(enc) == height,
        spec_pixel_count(enc) == pixels.len(),
        spec_decoded_pixels(enc) == Some(pixels),
{
    let head14 = spec_magic() + spec_be_bytes(width as int) + spec_be_bytes(height as int)
        + seq![channels, colourspace];
    let lit = spec_literal_body(pixels);
    assert(head14.len() == 14);
    assert(enc.len() == 22 + 5 * pixels.len());
    assert(enc.subrange(0, 4) =~= spec_magic());
    assert(enc.subrange(enc.len() - 8, enc.len() as int) =~= spec_trailer());
    assert(enc[12] == channels);
    assert(enc[13] == colourspace);
    assert(((width / 0x1000000) % 256) * 0x1000000 + ((width / 0x10000) % 256) * 0x10000 + ((width
        / 0x100) % 256) * 0x100 + (width % 256) == width) by (bit_vector);
    assert(((height / 0x1000000) % 256) * 0x1000000 + ((height / 0x10000) % 256) * 0x10000 + ((
    height / 0x100) % 256) * 0x100 + (height % 256) == height) by (bit_vector);
    assert(spec_width(enc) == width);
    assert(spec_height(enc) == height);
    assert(spec_body(enc) =~= lit);
    assert(lit.subrange(0, lit.len() as int) =~= lit);
    lemma_literal_stream_decodes(
        lit,
        0,
        pixels,
        spec_initial_pixel(),
        SeenPixels::spec_initial(),
    );
}

/// Four bytes read back as a big-endian 32-bit value.
fn read_be32(b0: u8, b1: u8, b2: u8, b3: u8) -> (v: u32)
    ensures
        v == spec_be32(b0, b1, b2, b3),
{
    (b0 as u32) * 0x1000000 + (b1 as u32) * 0x10000 + (b2 as u32) * 0x100 + (b3 as u32)
}

/// Validates the header and trailer of `data` and extracts the declared
/// dimensions, channel count and colourspace, or reports the first defect.
pub fn extract_header(data: &[u8]) -> (extracted: Result<QoiHeader, DecodeError>)
    ensures
        match extracted {
            Ok(header) => {
                &&& spec_header_ok(data@)
                &&& header.width == spec_width(data@)
                &&& header.height == spec_height(data@)
                &&& (header.channels is Rgb <==> data@[12] == 3)
                &&& (header.colorspace is SRgb <==> data@[13] == 0)
            },
            Err(e) => spec_header_error(data@, e),
        },
{
    let length = data.len();
    if length < MIN_INPUT_LENGTH {
        return Err(
            DecodeError::InvalidHeader(
                HeaderError::MalformedInput { minimum: MIN_INPUT_LENGTH, found: length },
            ),
        );
    }
    if !(data[0] == 0x71 && data[1] == 0x6F && data[2] == 0x69 && data[3] == 0x66) {
        let mut expected: Vec<u8> = Vec::new();
        expected.push(0x71);
        expected.push(0x6F);
        expected.push(0x69);
        expected.push(0x66);
        let mut found: Vec<u8> = Vec::new();
        found.push(data[0]);
        found.push(data[1]);
        found.push(data[2]);
        found.push(data[3]);
        proof {
            assert(expected@ =~= spec_magic());
            assert(found@ =~= data@.subrange(0, 4));
            assert(data@.subrange(0, 4)[0] == data@[0]);
            assert(data@.subrange(0, 4)[1] == data@[1]);
            assert(data@.subrange(0, 4)[2] == data@[2]);
            assert(data@.subrange(0, 4)[3] == data@[3]);
        }
        return Err(DecodeError::InvalidHeader(HeaderError::InvalidMagicBytes { expected, found }));
    }
    proof {
        assert(data@.subrange(0, 4) =~= spec_magic());
    }
    let trailer_ok = data[length - 8] == 0 && data[length - 7] == 0 && data[length - 6] == 0
        && data[length - 5] == 0 && data[length - 4] == 0 && data[length - 3] == 0 && data[length
        - 2] == 0 && data[length - 1] == 1;
    if !trailer_ok {
        let mut expected: Vec<u8> = Vec::new();
        expected.push(0);
        expected.push(0);
        expected.push(0);
        expected.push(0);
        expected.push(0);
        expected.push(0);
        expected.push(0);
        expected.push(1);
        let mut found: Vec<u8> = Vec::new();
        found.push(data[length - 8]);
        found.push(data[length - 7]);
        found.push(data[length - 6]);
        found.push(data[length - 5]);
        found.push(data[length - 4]);
        found.push(data[length - 3]);
        found.push(data[length - 2]);
        found.push(data[length - 1]);
        proof {
            assert(expected@ =~= spec_trailer());
            assert(found@ =~= data@.subrange(data@.len() - 8, data@.len() as int));
        }
        return Err(DecodeError::InvalidHeader(HeaderError::InvalidMagicBytes { expected, found }));
    }
    proof {
        assert(data@.subrange(data@.len() - 8, data@.len() as int) =~= spec_trailer());
    }
    let width = read_be32(data[4], data[5], data[6], data[7]);
    let height = read_be32(data[8], data[9], data[10], data[11]);
    let channels = if data[12] == 3 {
        ColourChannels::Rgb
    } else if data[12] == 4 {
        ColourChannels::Rgba
    } else {
        let mut expected: Vec<u8> = Vec::new();
        expected.push(3);
        expected.push(4);
        proof {
            assert(expected@ =~= seq![3u8, 4u8]);
        }
        return Err(
            DecodeError::InvalidHeader(
                HeaderError::InvalidColourChannels { expected, found: data[12] },
            ),
        );
    };
    let colorspace = if data[13] == 0 {
        Colourspace::SRgb
    } else if data[13] == 1 {
        Colourspace::Linear
    } else {
        let mut expected: Vec<u8> = Vec::new();
        expected.push(0);
        expected.push(1);
        proof {
            assert(expected@ =~= seq![0u8, 1u8]);
        }
        return Err(
            DecodeError::InvalidHeader(
                HeaderError::InvalidColourSpace { expected, found: data[13] },
            ),
        );
    };
    Ok(QoiHeader { width, height, channels, colorspace })
}

/// Glueing two prefixes on in turn is glueing their concatenation on.
proof fn lemma_opt_prepend_assoc(a: Seq<Pixel>, b: Seq<Pixel>, rest: Option<Seq<Pixel>>)
    ensures
        opt_prepend(a, opt_prepend(b, rest)) == opt_prepend(a + b, rest),
{
    match rest {
        Some(s) => {
            assert(a + (b + s) =~= (a + b) + s);
        },
        None => {},
    }
}

/// Decodes a complete stream: validates the header, replays the token stream
/// into pixels, checks the declared pixel count, and returns the pixels as a
/// flat byte buffer.
pub fn decode(data: &[u8]) -> (decoded: Result<Vec<u8>, DecodeError>)
    ensures
        match decoded {
            Ok(raw) => {
                &&& spec_header_ok(data@)
                &&& spec_decoded_pixels(data@) matches Some(pixels) && pixels.len()
                    == spec_pixel_count(data@) && raw@ == spec_raw_bytes(pixels)
            },
            Err(e) => spec_decode_error(data@, e),
        },
{
    let header = match extract_header(data) {
        Ok(h) => h,
        Err(e) => {
            return Err(e);
        },
    };
    let length = data.len();
    let body_len = length - MIN_INPUT_LENGTH;
    let ghost body: Seq<u8> = spec_body(data@);
    proof {
        assert(body.len() == body_len);
    }

    proof {
        vstd::arithmetic::mul::lemma_mul_upper_bound(
            header.width as int,
            0xFFFF_FFFF,
            header.height as int,
            0xFFFF_FFFF,
        );
    }
    let pixel_count: u64 = (header.width as u64) * (header.height as u64);

    let mut seen = SeenPixels::new();
    let mut previous_pixel = Pixel { red: 0, green: 0, blue: 0, alpha: 255 };
    let mut output_buf: Vec<Pixel> = if pixel_count <= (usize::MAX as u64) {
        Vec::with_capacity(pixel_count as usize)
    } else {
        Vec::new()
    };
    let mut cursor: usize = 0;

    proof {
        let initial = spec_decode_from(body, 0, previous_pixel, seen@);
        if initial is Some {
            assert(output_buf@ + initial->Some_0 =~= initial->Some_0);
        }
        assert(opt_prepend(output_buf@, initial) == spec_decoded_pixels(data@));
    }

    while cursor < body_len
        invariant
            length == data@.len(),
            length >= 22,
            body_len == length - 22,
            body == spec_body(data@),
            body.len() == body_len,
            cursor <= body_len,
            seen.wf(),
            spec_header_ok(data@),
            opt_prepend(output_buf@, spec_decode_from(body, cursor as int, previous_pixel, seen@))
                == spec_decoded_pixels(data@),
        decreases body_len - cursor,
    {
        let current_byte = data[HEADER_LENGTH + cursor];
        let ghost cursor0 = cursor as int;
        let ghost prev0 = previous_pixel;
        let ghost cache0 = seen@;
        let ghost out0 = output_buf@;
        proof {
            assert(current_byte == body[cursor0]);
        }
        if current_byte == RGB_BYTE {
            if cursor + 4 > body_len {
                proof {
                    assert(spec_decode_from(body, cursor0, prev0, cache0) is None);
                }
                return Err(DecodeError::TruncatedStream);
            }
            let pixel = Pixel {
                red: data[HEADER_LENGTH + cursor + 1],
                green: data[HEADER_LENGTH + cursor + 2],
                blue: data[HEADER_LENGTH + cursor + 3],
                alpha: previous_pixel.alpha,
            };
            seen.insert(pixel);
            previous_pixel = pixel;
            output_buf.push_unchecked(pixel);
            cursor += 4;
            proof {
                let rest = spec_decode_from(body, cursor as int, pixel, seen@);
                assert(spec_decode_from(body, cursor0, prev0, cache0) == opt_prepend(
                    seq![pixel],
                    rest,
                ));
                lemma_opt_prepend_assoc(out0, seq![pixel], rest);
                assert(out0 + seq![pixel] =~= out0.push(pixel));
            }
        } else if current_byte == RGBA_BYTE {
            if cursor + 5 > body_len {
                proof {
                    assert(spec_decode_from(body, cursor0, prev0, cache0) is None);
                }
                return Err(DecodeError::TruncatedStream);
            }
            let pixel = Pixel {
                red: data[HEADER_LENGTH + cursor + 1],
                green: data[HEADER_LENGTH + cursor + 2],
                blue: data[HEADER_LENGTH + cursor + 3],
                alpha: data[HEADER_LENGTH + cursor + 4],
            };
            seen.insert(pixel);
            previous_pixel = pixel;
            output_buf.push_unchecked(pixel);
            cursor += 5;
            proof {
                let rest = spec_decode_from(body, cursor as int, pixel, seen@);
                assert(spec_decode_from(body, cursor0, prev0, cache0) == opt_prepend(
                    seq![pixel],
                    rest,
                ));
                lemma_opt_prepend_assoc(out0, seq![pixel], rest);
                assert(out0 + seq![pixel] =~= out0.push(pixel));
            }
        } else if current_byte < DIFF_TAG {
            let pixel = seen.get(current_byte as usize);
            previous_pixel = pixel;
            output_buf.push_unchecked(pixel);
            cursor += 1;
            proof {
                let rest = spec_decode_from(body, cursor as int, pixel, seen@);
                assert(spec_decode_from(body, cursor0, prev0, cache0) == opt_prepend(
                    seq![pixel],
                    rest,
                ));
                lemma_opt_prepend_assoc(out0, seq![pixel], rest);
                assert(out0 + seq![pixel] =~= out0.push(pixel));
            }
        } else if current_byte < LUMA_TAG {
            let dr = ((current_byte / 16) % 4) as i8 - 2;
            let dg = ((current_byte / 4) % 4) as i8 - 2;
            let db = (current_byte % 4) as i8 - 2;
            let pixel = Pixel::from_diffs(&previous_pixel, dr, dg, db);
            seen.insert(pixel);
            previous_pixel = pixel;
            output_buf.push_unchecked(pixel);
            cursor += 1;
            proof {
                assert(pixel == spec_diff_pixel(prev0, current_byte));
                let rest = spec_decode_from(body, cursor as int, pixel, seen@);
                assert(spec_decode_from(body, cursor0, prev0, cache0) == opt_prepend(
                    seq![pixel],
                    rest,
                ));
                lemma_opt_prepend_assoc(out0, seq![pixel], rest);
                assert(out0 + seq![pixel] =~= out0.push(pixel));
            }
        } else if current_byte < RUN_TAG {
            if cursor + 2 > body_len {
                proof {
                    assert(spec_decode_from(body, cursor0, prev0, cache0) is None);
                }
                return Err(DecodeError::TruncatedStream);
            }
            let next_byte = data[HEADER_LENGTH + cursor + 1];
            let dg = (current_byte % 64) as i8 - 32;
            let dr = dg - 8 + (next_byte / 16) as i8;
            let db = dg - 8 + (next_byte % 16) as i8;
            let pixel = Pixel::from_diffs(&previous_pixel, dr, dg, db);
            seen.insert(pixel);
            previous_pixel = pixel;
            output_buf.push_unchecked(pixel);
            cursor += 2;
            proof {
                assert(pixel == spec_luma_pixel(prev0, current_byte, body[cursor0 + 1]));
                let rest = spec_decode_from(body, cursor as int, pixel, seen@);
                assert(spec_decode_from(body, cursor0, prev0, cache0) == opt_prepend(
                    seq![pixel],
                    rest,
                ));
                lemma_opt_prepend_assoc(out0, seq![pixel], rest);
                assert(out0 + seq![pixel] =~= out0.push(pixel));
            }
        } else {
            let count = (current_byte % 64) + 1;
            let mut j: u8 = 0;
            proof {
                assert(out0 + spec_run(previous_pixel, 0) =~= out0);
            }
            while j < count
                invariant
                    j <= count,
                    output_buf@ == out0 + spec_run(previous_pixel, j as int),
                decreases count - j,
            {
                output_buf.push_unchecked(previous_pixel);
                proof {
                    assert(out0 + spec_run(previous_pixel, j as int + 1) =~= (out0 + spec_run(
                        previous_pixel,
                        j as int,
                    )).push(previous_pixel));
                }
                j += 1;
            }
            cursor += 1;
            proof {
                let rest = spec_decode_from(body, cursor as int, previous_pixel, seen@);
                assert(spec_decode_from(body, cursor0, prev0, cache0) == opt_prepend(
                    spec_run(prev0, count as int),
                    rest,
                ));
                lemma_opt_prepend_assoc(out0, spec_run(prev0, count as int), rest);
            }
        }
    }
    proof {
        assert(spec_decode_from(body, cursor as int, previous_pixel, seen@) == Some(
            Seq::<Pixel>::empty(),
        ));
        assert(output_buf@ + Seq::<Pixel>::empty() =~= output_buf@);
        assert(spec_decoded_pixels(data@) == Some(output_buf@));
    }
    if (output_buf.len() as u64) != pixel_count {
        return Err(
            DecodeError::SizeMismatch { expected: pixel_count, found: output_buf.len() as u64 },
        );
    }
    Ok(output_buf.to_raw())
}

} // verus!
