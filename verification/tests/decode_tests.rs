use qoi::decode::{decode, extract_header};
use qoi::error::{DecodeError, HeaderError};
use qoi::model::{ColourChannels, Colourspace};

fn stream(width: u32, height: u32, channels: u8, colorspace: u8, body: &[u8]) -> Vec<u8> {
    let mut data = Vec::new();
    data.extend_from_slice(&[0x71, 0x6F, 0x69, 0x66]);
    data.extend_from_slice(&width.to_be_bytes());
    data.extend_from_slice(&height.to_be_bytes());
    data.push(channels);
    data.push(colorspace);
    data.extend_from_slice(body);
    data.extend_from_slice(&[0, 0, 0, 0, 0, 0, 0, 1]);
    data
}

#[test]
fn extract_header_reads_fields() {
    let data = stream(258, 70000, 3, 1, &[]);
    let header = extract_header(&data).unwrap();
    assert_eq!(header.width, 258);
    assert_eq!(header.height, 70000);
    assert_eq!(header.channels, ColourChannels::Rgb);
    assert_eq!(header.colorspace, Colourspace::Linear);
    let data = stream(1, 1, 4, 0, &[]);
    let header = extract_header(&data).unwrap();
    assert_eq!(header.channels, ColourChannels::Rgba);
    assert_eq!(header.colorspace, Colourspace::SRgb);
}

#[test]
fn single_rgba_literal() {
    let data = stream(1, 1, 4, 0, &[0xFF, 0x10, 0x20, 0x30, 0x40]);
    let decoded = decode(&data).unwrap();
    assert_eq!(decoded, vec![0x10, 0x20, 0x30, 0x40]);
}

#[test]
fn rgb_literal_keeps_previous_alpha() {
    let body = [0xFF, 1, 2, 3, 77, 0xFE, 9, 8, 7];
    let data = stream(2, 1, 4, 0, &body);
    let decoded = decode(&data).unwrap();
    assert_eq!(decoded, vec![1, 2, 3, 77, 9, 8, 7, 77]);
}

#[test]
fn diff_token_moves_channels() {
    // Previous pixel (10,10,10,255); fields dr=+1, dg=0, db=-1 are the two-bit
    // values 3, 2 and 1: tag 0b01_11_10_01 == 0x79.
    let body = [0xFF, 10, 10, 10, 255, 0x79];
    let data = stream(2, 1, 4, 0, &body);
    let decoded = decode(&data).unwrap();
    assert_eq!(decoded, vec![10, 10, 10, 255, 11, 10, 9, 255]);
}

#[test]
fn diff_token_wraps_from_initial_pixel() {
    // Before any token the previous pixel is (0,0,0,255); all three fields
    // zero move every colour channel by -2 with wraparound.
    let data = stream(1, 1, 4, 0, &[0x40]);
    let decoded = decode(&data).unwrap();
    assert_eq!(decoded, vec![254, 254, 254, 255]);
}

#[test]
fn luma_token_moves_channels() {
    // dg = +5: low six bits 37, tag 0xA5.  dr = +3 and db = -2 give nibbles
    // 3-5+8 == 6 and -2-5+8 == 1: extra byte 0x61.
    let body = [0xFF, 100, 100, 100, 255, 0xA5, 0x61];
    let data = stream(2, 1, 4, 0, &body);
    let decoded = decode(&data).unwrap();
    assert_eq!(decoded, vec![100, 100, 100, 255, 103, 105, 98, 255]);
}

#[test]
fn run_token_appends_six_copies() {
    // RUN with low six bits 5 appends 5 + 1 copies of the previous pixel.
    let body = [0xFF, 1, 2, 3, 4, 0xC5];
    let data = stream(7, 1, 4, 0, &body);
    let decoded = decode(&data).unwrap();
    let mut expected = Vec::new();
    for _ in 0..7 {
        expected.extend_from_slice(&[1, 2, 3, 4]);
    }
    assert_eq!(decoded, expected);
}

#[test]
fn run_token_longest_run_is_62() {
    let body = [0xFF, 5, 6, 7, 8, 0xFD];
    let data = stream(63, 1, 4, 0, &body);
    let decoded = decode(&data).unwrap();
    assert_eq!(decoded.len(), 63 * 4);
    for chunk in decoded.chunks(4) {
        assert_eq!(chunk, &[5, 6, 7, 8]);
    }
}

#[test]
fn index_token_resolves_seeded_slot() {
    // Slot 53 holds (0,0,0,255) before any pixel has been seen.
    let data = stream(1, 1, 4, 0, &[0x35]);
    let decoded = decode(&data).unwrap();
    assert_eq!(decoded, vec![0, 0, 0, 255]);
}

#[test]
fn index_token_resolves_inserted_pixel() {
    // (1,2,3,4) hashes to slot 14; the index token 0x0E refers back to it.
    let body = [0xFF, 1, 2, 3, 4, 0x40, 0x0E];
    let data = stream(3, 1, 4, 0, &body);
    let decoded = decode(&data).unwrap();
    assert_eq!(decoded, vec![1, 2, 3, 4, 255, 0, 1, 4, 1, 2, 3, 4]);
}

#[test]
fn zero_sized_image_decodes_to_nothing() {
    let data = stream(0, 0, 4, 0, &[]);
    let decoded = decode(&data).unwrap();
    assert_eq!(decoded, Vec::<u8>::new());
}

#[test]
fn truncated_rgba_literal_is_reported() {
    // Four of the five bytes of an RGBA literal are present.
    let data = stream(1, 1, 4, 0, &[0xFF, 0x10, 0x20, 0x30]);
    let e = decode(&data).unwrap_err();
    assert!(matches!(e, DecodeError::TruncatedStream));
}

#[test]
fn truncated_rgb_literal_is_reported() {
    let data = stream(1, 1, 4, 0, &[0xFE, 0x10]);
    let e = decode(&data).unwrap_err();
    assert!(matches!(e, DecodeError::TruncatedStream));
}

#[test]
fn truncated_luma_token_is_reported() {
    let data = stream(1, 1, 4, 0, &[0xA5]);
    let e = decode(&data).unwrap_err();
    assert!(matches!(e, DecodeError::TruncatedStream));
}

#[test]
fn short_input_is_reported() {
    let data = vec![0x71, 0x6F, 0x69, 0x66, 0, 0];
    let e = decode(&data).unwrap_err();
    match e {
        DecodeError::InvalidHeader(HeaderError::MalformedInput { minimum, found }) => {
            assert_eq!(minimum, 22);
            assert_eq!(found, 6);
        }
        other => panic!("unexpected error {:?}", other),
    }
}

#[test]
fn bad_start_magic_is_reported() {
    let mut data = stream(1, 1, 4, 0, &[0xFF, 1, 2, 3, 4]);
    data[0] = 0x70;
    let e = decode(&data).unwrap_err();
    match e {
        DecodeError::InvalidHeader(HeaderError::InvalidMagicBytes { expected, found }) => {
            assert_eq!(expected, vec![0x71, 0x6F, 0x69, 0x66]);
            assert_eq!(found, vec![0x70, 0x6F, 0x69, 0x66]);
        }
        other => panic!("unexpected error {:?}", other),
    }
}

#[test]
fn bad_trailer_is_reported() {
    let mut data = stream(1, 1, 4, 0, &[0xFF, 1, 2, 3, 4]);
    let last = data.len() - 1;
    data[last] = 2;
    let e = decode(&data).unwrap_err();
    match e {
        DecodeError::InvalidHeader(HeaderError::InvalidMagicBytes { expected, found }) => {
            assert_eq!(expected, vec![0, 0, 0, 0, 0, 0, 0, 1]);
            assert_eq!(found, vec![0, 0, 0, 0, 0, 0, 0, 2]);
        }
        other => panic!("unexpected error {:?}", other),
    }
}

#[test]
fn bad_channel_count_is_reported() {
    let data = stream(1, 1, 5, 0, &[0xFF, 1, 2, 3, 4]);
    let e = decode(&data).unwrap_err();
    match e {
        DecodeError::InvalidHeader(HeaderError::InvalidColourChannels { expected, found }) => {
            assert_eq!(expected, vec![3, 4]);
            assert_eq!(found, 5);
        }
        other => panic!("unexpected error {:?}", other),
    }
}

#[test]
fn bad_colourspace_is_reported() {
    let data = stream(1, 1, 4, 2, &[0xFF, 1, 2, 3, 4]);
    let e = decode(&data).unwrap_err();
    match e {
        DecodeError::InvalidHeader(HeaderError::InvalidColourSpace { expected, found }) => {
            assert_eq!(expected, vec![0, 1]);
            assert_eq!(found, 2);
        }
        other => panic!("unexpected error {:?}", other),
    }
}

#[test]
fn pixel_count_mismatch_is_reported() {
    let data = stream(2, 1, 4, 0, &[0xFF, 1, 2, 3, 4]);
    let e = decode(&data).unwrap_err();
    match e {
        DecodeError::SizeMismatch { expected, found } => {
            assert_eq!(expected, 2);
            assert_eq!(found, 1);
        }
        other => panic!("unexpected error {:?}", other),
    }
}

#[test]
fn literal_grid_round_trip() {
    // A byte-perfect all-literal encoding of a known 2x2 grid decodes back to
    // exactly that grid.
    let grid: [[u8; 4]; 4] = [[1, 2, 3, 4], [5, 6, 7, 8], [9, 10, 11, 12], [13, 14, 15, 16]];
    let mut body = Vec::new();
    for px in grid.iter() {
        body.push(0xFF);
        body.extend_from_slice(px);
    }
    let data = stream(2, 2, 4, 0, &body);
    let decoded = decode(&data).unwrap();
    let flat: Vec<u8> = grid.iter().flatten().copied().collect();
    assert_eq!(decoded, flat);
}

#[test]
fn mixed_token_stream_decodes() {
    // Literal, run, diff, index and luma tokens in one stream.
    let body = [
        0xFF, 10, 20, 30, 40, // (10,20,30,40)
        0xC1, // run of 2: two more copies
        0x69, // diff +0,+0,-1 -> (10,20,29,40)
        0x35, // index 53 -> (0,0,0,255)
        0x80, 0x88, // luma dg=-32, dr=-32, db=-32 -> (224,224,224,255)
    ];
    let data = stream(6, 1, 4, 0, &body);
    let decoded = decode(&data).unwrap();
    assert_eq!(
        decoded,
        vec![
            10, 20, 30, 40, //
            10, 20, 30, 40, //
            10, 20, 30, 40, //
            10, 20, 29, 40, //
            0, 0, 0, 255, //
            224, 224, 224, 255,
        ]
    );
}
