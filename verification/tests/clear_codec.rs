use rdp_codec::clear_codec::residual::decode_residual;
use rdp_codec::clear_codec::{ClearDecodeError, ClearDecoder};

/// Subcodec layer with palette runs, 78x17.
const EXAMPLE_2: &[u8] = &[
    0x00, 0x0d, 0x00, 0x00, 0x00, 0x00, 0x00, 0x00, 0x00, 0x00, 0x82, 0x00, 0x00, 0x00, 0x00, 0x00,
    0x00, 0x00, 0x4e, 0x00, 0x11, 0x00, 0x75, 0x00, 0x00, 0x00, 0x02, 0x0e, 0xff, 0xff, 0xff, 0x00,
    0x00, 0x00, 0xdb, 0xff, 0xff, 0x00, 0x3a, 0x90, 0xff, 0xb6, 0x66, 0x66, 0xb6, 0xff, 0xb6, 0x66,
    0x00, 0x90, 0xdb, 0xff, 0x00, 0x00, 0x3a, 0xdb, 0x90, 0x3a, 0x3a, 0x90, 0xdb, 0x66, 0x00, 0x00,
    0xff, 0xff, 0xb6, 0x64, 0x64, 0x64, 0x11, 0x04, 0x11, 0x4c, 0x11, 0x4c, 0x11, 0x4c, 0x11, 0x4c,
    0x11, 0x4c, 0x00, 0x47, 0x13, 0x00, 0x01, 0x01, 0x04, 0x00, 0x01, 0x00, 0x00, 0x47, 0x16, 0x00,
    0x11, 0x02, 0x00, 0x47, 0x29, 0x00, 0x11, 0x01, 0x00, 0x49, 0x0a, 0x00, 0x01, 0x00, 0x04, 0x00,
    0x01, 0x00, 0x00, 0x4a, 0x0a, 0x00, 0x09, 0x00, 0x01, 0x00, 0x00, 0x47, 0x05, 0x00, 0x01, 0x01,
    0x1c, 0x00, 0x01, 0x00, 0x11, 0x4c, 0x11, 0x4c, 0x11, 0x4c, 0x00, 0x47, 0x0d, 0x4d, 0x00, 0x4d,
];

/// Residual and bands layers with cached bars, 64x24.
const EXAMPLE_3: &[u8] = &[
    0x00, 0xdf, 0x0e, 0x00, 0x00, 0x00, 0x8b, 0x00, 0x00, 0x00, 0x00, 0x00, 0x00, 0x00, 0xfe, 0xfe,
    0xfe, 0xff, 0x80, 0x05, 0xff, 0xff, 0xff, 0x40, 0xfe, 0xfe, 0xfe, 0x40, 0x00, 0x00, 0x3f, 0x00,
    0x03, 0x00, 0x0b, 0x00, 0xfe, 0xfe, 0xfe, 0xc5, 0xd0, 0xc6, 0xd0, 0xc7, 0xd0, 0x68, 0xd4, 0x69,
    0xd4, 0x6a, 0xd4, 0x6b, 0xd4, 0x6c, 0xd4, 0x6d, 0xd4, 0x1a, 0xd4, 0x1a, 0xd4, 0xa6, 0xd0, 0x6e,
    0xd4, 0x6f, 0xd4, 0x70, 0xd4, 0x71, 0xd4, 0x72, 0xd4, 0x73, 0xd4, 0x74, 0xd4, 0x21, 0xd4, 0x22,
    0xd4, 0x23, 0xd4, 0x24, 0xd4, 0x25, 0xd4, 0xd9, 0xd0, 0xda, 0xd0, 0xdb, 0xd0, 0xc5, 0xd0, 0xc5,
    0xd0, 0xdc, 0xd0, 0xc2, 0xd0, 0x21, 0xd4, 0x22, 0xd4, 0x23, 0xd4, 0x24, 0xd4, 0x25, 0xd4, 0xc9,
    0xd0, 0xca, 0xd0, 0x5a, 0xd4, 0x2b, 0xd1, 0x28, 0xd1, 0x2c, 0xd1, 0x75, 0xd4, 0x27, 0xd4, 0x28,
    0xd4, 0x29, 0xd4, 0x2a, 0xd4, 0x1a, 0xd4, 0x1a, 0xd4, 0x1a, 0xd4, 0xb7, 0xd0, 0xb8, 0xd0, 0xb9,
    0xd0, 0xba, 0xd0, 0xbb, 0xd0, 0xbc, 0xd0, 0xbd, 0xd0, 0xbe, 0xd0, 0xbf, 0xd0, 0xc0, 0xd0, 0xc1,
    0xd0, 0xc2, 0xd0, 0xc3, 0xd0, 0xc4, 0xd0,
];

/// A glyph with a bands layer, 7x15.
const EXAMPLE_4: &[u8] = &[
    0x01, 0x0b, 0x78, 0x00, 0x00, 0x00, 0x00, 0x00, 0x46, 0x00, 0x00, 0x00, 0x00, 0x00, 0x00, 0x00,
    0x00, 0x00, 0x06, 0x00, 0x00, 0x00, 0x0e, 0x00, 0x00, 0x00, 0x00, 0x00, 0x0f, 0xff, 0xff, 0xff,
    0xff, 0xff, 0xff, 0xff, 0xff, 0xff, 0xb6, 0xff, 0xff, 0xff, 0xff, 0xff, 0xff, 0xff, 0xff, 0xff,
    0xb6, 0x66, 0xff, 0xff, 0xff, 0xff, 0xff, 0xff, 0xff, 0xb6, 0x66, 0xdb, 0x90, 0x3a, 0xff, 0xff,
    0xb6, 0xff, 0xff, 0xff, 0xff, 0xff, 0xff, 0xff, 0xff, 0xff, 0x46, 0x91, 0x47, 0x91, 0x48, 0x91,
    0x49, 0x91, 0x4a, 0x91, 0x1b, 0x91,
];

fn decode(width: u16, height: u16, src: &[u8]) -> Vec<u8> {
    let mut decoder = ClearDecoder::new();
    let mut out = vec![0u8; usize::from(width) * usize::from(height) * 4];
    decoder
        .decode(src, width, height, &mut out)
        .unwrap_or_else(|e| panic!("decode failed: {}", e.message()));
    out
}

/// A stream without glyph, with the three layers.
fn stream(residual: &[u8], bands: &[u8], subcodecs: &[u8]) -> Vec<u8> {
    flagged(&[0x00, 0x00], residual, bands, subcodecs)
}

fn flagged(start: &[u8], residual: &[u8], bands: &[u8], subcodecs: &[u8]) -> Vec<u8> {
    let mut s = start.to_vec();
    for layer in [residual, bands, subcodecs] {
        s.extend((layer.len() as u32).to_le_bytes());
    }
    for layer in [residual, bands, subcodecs] {
        s.extend_from_slice(layer);
    }
    s
}

fn error_of(width: u16, height: u16, src: &[u8]) -> &'static str {
    let mut out = vec![0u8; usize::from(width) * usize::from(height) * 4];
    match ClearDecoder::new().decode(src, width, height, &mut out) {
        Ok(()) => panic!("decoded"),
        Err(e) => e.0,
    }
}

fn subcodec(x: u16, y: u16, w: u16, h: u16, id: u8, data: &[u8]) -> Vec<u8> {
    let mut s = Vec::new();
    for v in [x, y, w, h] {
        s.extend(v.to_le_bytes());
    }
    s.extend((data.len() as u32).to_le_bytes());
    s.push(id);
    s.extend_from_slice(data);
    s
}

fn band(x_start: u16, x_end: u16, y_start: u16, y_end: u16, bgr: [u8; 3], bars: &[u8]) -> Vec<u8> {
    let mut s = Vec::new();
    for v in [x_start, x_end, y_start, y_end] {
        s.extend(v.to_le_bytes());
    }
    s.extend(bgr);
    s.extend_from_slice(bars);
    s
}

#[test]
fn spec_example_2_decodes() {
    decode(78, 17, EXAMPLE_2);
}

#[test]
fn spec_example_3_decodes() {
    let out = decode(64, 24, EXAMPLE_3);
    // The color of the background occurs.
    assert!(out.chunks_exact(4).any(|px| px == [0xFE, 0xFE, 0xFE, 0xFF]));
}

#[test]
fn spec_example_4_stores_glyph_and_hits() {
    let mut decoder = ClearDecoder::new();
    let mut out = vec![0u8; 7 * 15 * 4];
    decoder
        .decode(EXAMPLE_4, 7, 15, &mut out)
        .unwrap_or_else(|e| panic!("decode failed: {}", e.message()));

    // The glyph is stored under 0x0078, and a hit shows the same pixels.
    let hit = [0x03u8, 0x0c, 0x78, 0x00];
    let mut out2 = vec![0u8; 7 * 15 * 4];
    decoder
        .decode(&hit, 7, 15, &mut out2)
        .unwrap_or_else(|e| panic!("glyph hit decode failed: {}", e.message()));
    assert_eq!(out, out2);
}

#[test]
fn residual_only_fill() {
    // Two by two pixels in red: one run of four.
    let src = [
        0x00, 0x00, // flags, sequence number
        0x04, 0x00, 0x00, 0x00, // size of the residual
        0x00, 0x00, 0x00, 0x00, // size of the bands
        0x00, 0x00, 0x00, 0x00, // size of the subcodecs
        0x00, 0x00, 0xFF, 0x04, // blue, green, red, run
    ];
    let out = decode(2, 2, &src);
    assert_eq!(out, [0xFF, 0x00, 0x00, 0xFF].repeat(4));
}

#[test]
fn example_3_has_its_residual_where_no_bar_was_cached() {
    // The bars that the bands refer to are not in the cache, so the residual shows through: 0x580
    // pixels of one color, 0x40 of another and 0x40 of the first.
    let out = decode(64, 24, EXAMPLE_3);
    let mut expected = [0xFE, 0xFE, 0xFE, 0xFF].repeat(0x580);
    expected.extend([0xFF, 0xFF, 0xFF, 0xFF].repeat(0x40));
    expected.extend([0xFE, 0xFE, 0xFE, 0xFF].repeat(0x40));
    assert_eq!(out, expected);
}

#[test]
fn messages_name_the_codec() {
    assert_eq!(ClearDecodeError("stream underrun").message(), "ClearCodec: stream underrun");
}

#[test]
fn default_is_a_fresh_decoder() {
    let mut out = vec![0u8; 4];
    let hit = [0x03, 0x00, 0x00, 0x00];
    let e = ClearDecoder::default().decode(&hit, 1, 1, &mut out).unwrap_err();
    assert_eq!(e.0, "glyph cache entry smaller than rect");
}

#[test]
fn residual_runs_can_be_long() {
    // 300 pixels as one run of 16 bits.
    let out = decode(20, 15, &stream(&[1, 2, 3, 0xFF, 0x2C, 0x01], &[], &[]));
    assert_eq!(out, [3, 2, 1, 0xFF].repeat(300));
    // 0x10000 pixels as one run of 32 bits.
    let long = [9, 8, 7, 0xFF, 0xFF, 0xFF, 0x00, 0x00, 0x01, 0x00];
    let out = decode(256, 256, &stream(&long, &[], &[]));
    assert_eq!(out, [7, 8, 9, 0xFF].repeat(0x10000));
    // A run of no pixels paints nothing.
    let out = decode(1, 1, &stream(&[1, 2, 3, 0, 4, 5, 6, 1], &[], &[]));
    assert_eq!(out, [6, 5, 4, 0xFF]);
}

#[test]
fn residual_covers_what_was_there() {
    let src = stream(&[0, 0, 9, 3, 0, 8, 0, 1], &[], &[]);
    let mut a = vec![1u8; 16];
    let mut b = vec![2u8; 16];
    assert!(ClearDecoder::new().decode(&src, 2, 2, &mut a).is_ok());
    assert!(ClearDecoder::new().decode(&src, 2, 2, &mut b).is_ok());
    assert_eq!(a, b);
    assert_eq!(a[12..], [0, 8, 0, 0xFF]);
}

#[test]
fn raw_rectangle_leaves_the_rest() {
    // Two pixels side by side at (1, 1) of a square of three.
    let raw = subcodec(1, 1, 2, 1, 0, &[10, 20, 30, 40, 50, 60]);
    let mut out = vec![7u8; 36];
    assert!(ClearDecoder::new().decode(&stream(&[], &[], &raw), 3, 3, &mut out).is_ok());
    let mut expected = vec![7u8; 36];
    expected[16..24].copy_from_slice(&[30, 20, 10, 0xFF, 60, 50, 40, 0xFF]);
    assert_eq!(out, expected);
}

#[test]
fn raw_rectangle_has_rows() {
    let raw = subcodec(0, 1, 1, 2, 0, &[1, 2, 3, 4, 5, 6]);
    let out = decode(2, 3, &stream(&[], &[], &raw));
    let mut expected = vec![0u8; 24];
    expected[8..12].copy_from_slice(&[3, 2, 1, 0xFF]);
    expected[16..20].copy_from_slice(&[6, 5, 4, 0xFF]);
    assert_eq!(out, expected);
}

#[test]
fn palette_runs_and_suites() {
    // Two colors, so one bit for the index: a run of the first, then the suite of both.
    let data = [2, 1, 2, 3, 4, 5, 6, 0x03, 1];
    let out = decode(3, 1, &stream(&[], &[], &subcodec(0, 0, 3, 1, 2, &data)));
    assert_eq!(out, [3, 2, 1, 0xFF, 3, 2, 1, 0xFF, 6, 5, 4, 0xFF]);
    // Five colors, so three bits: the suite from index 2 to 4 behind a run of two.
    let mut data = vec![5u8];
    for i in 0..5u8 {
        data.extend([i, i, i]);
    }
    data.extend([0x14, 2]);
    let out = decode(5, 1, &stream(&[], &[], &subcodec(0, 0, 5, 1, 2, &data)));
    let reds: Vec<u8> = out.chunks_exact(4).map(|px| px[0]).collect();
    assert_eq!(reds, [2, 2, 2, 3, 4]);
}

#[test]
fn palette_of_one_color() {
    // One color: the index has one bit.
    let data = [1, 1, 2, 3, 0x00, 3];
    let out = decode(2, 2, &stream(&[], &[], &subcodec(0, 0, 2, 2, 2, &data)));
    assert_eq!(out, [3, 2, 1, 0xFF].repeat(4));
}

#[test]
fn inline_bar_is_composed_with_the_background() {
    // Height 4: the short bar has two pixels from row 1 on.
    let bars = [0x01, 0x03, 1, 2, 3, 4, 5, 6];
    let layer = band(1, 1, 0, 3, [9, 9, 9], &bars);
    let out = decode(2, 4, &stream(&[], &layer, &[]));
    let column: Vec<&[u8]> = out.chunks_exact(8).map(|row| &row[4..8]).collect();
    assert_eq!(column[0], [9, 9, 9, 0xFF]);
    assert_eq!(column[1], [3, 2, 1, 0xFF]);
    assert_eq!(column[2], [6, 5, 4, 0xFF]);
    assert_eq!(column[3], [9, 9, 9, 0xFF]);
    assert!(out.chunks_exact(8).all(|row| row[..4] == [0, 0, 0, 0]));
}

#[test]
fn cached_bars_come_back() {
    let mut decoder = ClearDecoder::new();
    let mut out = vec![0u8; 8];
    let inline = band(0, 0, 0, 0, [0, 0, 0], &[0x00, 0x01, 1, 2, 3]);
    assert!(decoder.decode(&stream(&[], &inline, &[]), 2, 1, &mut out).is_ok());
    assert_eq!(out, [3, 2, 1, 0xFF, 0, 0, 0, 0]);
    // The composed bar, by its place.
    let hit = band(1, 1, 0, 0, [7, 7, 7], &[0x00, 0x80]);
    assert!(decoder.decode(&stream(&[], &hit, &[]), 2, 1, &mut out).is_ok());
    assert_eq!(out, [3, 2, 1, 0xFF, 3, 2, 1, 0xFF]);
    // The short bar, by its place: from row 1 on it does not show in a band of one row.
    let short = band(0, 0, 0, 0, [5, 5, 5], &[0x00, 0x40, 1]);
    assert!(decoder.decode(&stream(&[], &short, &[]), 2, 1, &mut out).is_ok());
    assert_eq!(out, [5, 5, 5, 0xFF, 3, 2, 1, 0xFF]);
    // That bar was stored behind the first one.
    let second = band(1, 1, 0, 0, [0, 0, 0], &[0x01, 0x80]);
    assert!(decoder.decode(&stream(&[], &second, &[]), 2, 1, &mut out).is_ok());
    assert_eq!(out, [5, 5, 5, 0xFF, 5, 5, 5, 0xFF]);
}

#[test]
fn reset_rewinds_and_keeps_the_bars() {
    let mut decoder = ClearDecoder::new();
    let mut out = vec![0u8; 4];
    for red in [1u8, 2] {
        let layer = band(0, 0, 0, 0, [0, 0, 0], &[0x00, 0x01, 0, 0, red]);
        assert!(decoder.decode(&stream(&[], &layer, &[]), 1, 1, &mut out).is_ok());
    }
    // After a reset the second bar is still in its place, and the next one replaces the first.
    let hit = band(0, 0, 0, 0, [0, 0, 0], &[0x01, 0x80]);
    assert!(decoder.decode(&flagged(&[0x04, 0], &[], &hit, &[]), 1, 1, &mut out).is_ok());
    assert_eq!(out, [2, 0, 0, 0xFF]);
    let layer = band(0, 0, 0, 0, [0, 0, 0], &[0x00, 0x01, 0, 0, 3]);
    assert!(decoder.decode(&stream(&[], &layer, &[]), 1, 1, &mut out).is_ok());
    let first = band(0, 0, 0, 0, [0, 0, 0], &[0x00, 0x80]);
    assert!(decoder.decode(&stream(&[], &first, &[]), 1, 1, &mut out).is_ok());
    assert_eq!(out, [3, 0, 0, 0xFF]);
}

#[test]
fn empty_bar_paints_nothing() {
    let layer = band(0, 0, 0, 3, [9, 9, 9], &[0x34, 0x92]);
    let mut out = vec![7u8; 16];
    assert!(ClearDecoder::new().decode(&stream(&[], &layer, &[]), 1, 4, &mut out).is_ok());
    assert_eq!(out, vec![7u8; 16]);
}

#[test]
fn cached_short_bar_gives_the_same_bar() {
    let mut decoder = ClearDecoder::new();
    let mut out = vec![0u8; 24];
    // Rows 1 of three, from an inline short bar and then from the cached one.
    let inline = band(0, 0, 0, 2, [9, 9, 9], &[0x01, 0x02, 1, 2, 3]);
    assert!(decoder.decode(&stream(&[], &inline, &[]), 2, 3, &mut out).is_ok());
    let cached = band(1, 1, 0, 2, [9, 9, 9], &[0x00, 0x40, 0x01]);
    assert!(decoder.decode(&stream(&[], &cached, &[]), 2, 3, &mut out).is_ok());
    let row = |color: [u8; 4]| color.repeat(2);
    let expected = [row([9, 9, 9, 0xFF]), row([3, 2, 1, 0xFF]), row([9, 9, 9, 0xFF])].concat();
    assert_eq!(out, expected);
}

#[test]
fn opaque_destination_stays_opaque() {
    let mut decoder = ClearDecoder::new();
    let mut out = vec![0xFFu8; 78 * 17 * 4];
    assert!(decoder.decode(EXAMPLE_2, 78, 17, &mut out).is_ok());
    assert!(out.chunks_exact(4).all(|px| px[3] == 0xFF));
    let mut out = vec![0xFFu8; 7 * 15 * 4];
    assert!(decoder.decode(EXAMPLE_4, 7, 15, &mut out).is_ok());
    assert!(out.chunks_exact(4).all(|px| px[3] == 0xFF));
}

#[test]
fn layers_are_painted_in_order() {
    let residual = [0, 0, 1, 2];
    let bands = band(0, 0, 0, 0, [0, 0, 2], &[0x00, 0x00]);
    let raw = subcodec(0, 0, 1, 1, 0, &[0, 0, 3]);
    assert_eq!(decode(2, 1, &stream(&residual, &[], &[]))[..4], [1, 0, 0, 0xFF]);
    assert_eq!(decode(2, 1, &stream(&residual, &bands, &[]))[..4], [2, 0, 0, 0xFF]);
    let out = decode(2, 1, &stream(&residual, &bands, &raw));
    assert_eq!(out, [3, 0, 0, 0xFF, 1, 0, 0, 0xFF]);
}

#[test]
fn empty_layers_paint_nothing() {
    let mut out = vec![7u8; 16];
    assert!(ClearDecoder::new().decode(&stream(&[], &[], &[]), 2, 2, &mut out).is_ok());
    assert_eq!(out, vec![7u8; 16]);
}

#[test]
fn unpainted_pixels_keep_what_they_had() {
    let src = stream(&[], &[], &subcodec(0, 0, 1, 1, 0, &[0, 0, 3]));
    let mut a = vec![1u8; 8];
    let mut b = vec![2u8; 8];
    assert!(ClearDecoder::new().decode(&src, 2, 1, &mut a).is_ok());
    assert!(ClearDecoder::new().decode(&src, 2, 1, &mut b).is_ok());
    assert_eq!(a, [3, 0, 0, 0xFF, 1, 1, 1, 1]);
    assert_eq!(b, [3, 0, 0, 0xFF, 2, 2, 2, 2]);
}

#[test]
fn sequence_numbers_have_no_effect() {
    let mut decoder = ClearDecoder::new();
    let mut out = vec![0u8; 4];
    for number in [3u8, 200, 7, 255, 0] {
        let src = flagged(&[0x00, number], &[0, 0, number, 1], &[], &[]);
        assert!(decoder.decode(&src, 1, 1, &mut out).is_ok());
        assert_eq!(out, [number, 0, 0, 0xFF]);
    }
}

#[test]
fn glyphs_stay_until_they_are_replaced() {
    let mut decoder = ClearDecoder::new();
    let mut out = vec![0u8; 4];
    let store = |index: u8, red: u8| flagged(&[0x01, 0, index, 0], &[0, 0, red, 1], &[], &[]);
    assert!(decoder.decode(&store(1, 10), 1, 1, &mut out).is_ok());
    assert!(decoder.decode(&store(2, 20), 1, 1, &mut out).is_ok());
    // A stream that fails stores nothing.
    let broken = flagged(&[0x01, 0, 1, 0], &[0, 0, 30, 2], &[], &[]);
    assert!(decoder.decode(&broken, 1, 1, &mut out).is_err());
    assert!(decoder.decode(&[0x03, 0, 1, 0], 1, 1, &mut out).is_ok());
    assert_eq!(out, [10, 0, 0, 0xFF]);
    assert!(decoder.decode(&[0x03, 0, 2, 0], 1, 1, &mut out).is_ok());
    assert_eq!(out, [20, 0, 0, 0xFF]);
}

#[test]
fn larger_glyph_gives_its_start() {
    let mut decoder = ClearDecoder::new();
    let mut out = vec![0u8; 8];
    let store = flagged(&[0x01, 0, 5, 0], &[0, 0, 1, 1, 0, 0, 2, 1], &[], &[]);
    assert!(decoder.decode(&store, 2, 1, &mut out).is_ok());
    let mut small = vec![0u8; 4];
    assert!(decoder.decode(&[0x03, 0, 5, 0], 1, 1, &mut small).is_ok());
    assert_eq!(small, [1, 0, 0, 0xFF]);
}

#[test]
fn failed_hit_leaves_the_destination() {
    let mut out = vec![7u8; 4];
    let e = ClearDecoder::new().decode(&[0x03, 0, 5, 0], 1, 1, &mut out).unwrap_err();
    assert_eq!(e.0, "glyph cache entry smaller than rect");
    assert_eq!(out, vec![7u8; 4]);
}

#[test]
fn rectangle_errors() {
    let mut out: Vec<u8> = Vec::new();
    let mut decoder = ClearDecoder::new();
    let src = stream(&[], &[], &[]);
    let e = decoder.decode(&src, 0, 5, &mut out).unwrap_err();
    assert_eq!(e.0, "empty destination rectangle");
    let e = decoder.decode(&src, 5, 0, &mut out).unwrap_err();
    assert_eq!(e.0, "empty destination rectangle");
    let e = decoder.decode(&src, 4097, 4096, &mut out).unwrap_err();
    assert_eq!(e.0, "destination rectangle too large");
    let e = decoder.decode(&src, 4096, 4096, &mut out).unwrap_err();
    assert_eq!(e.0, "output buffer size mismatch");
    let e = decoder.decode(&src, 1, 1, &mut [0u8; 5]).unwrap_err();
    assert_eq!(e.0, "output buffer size mismatch");
}

#[test]
fn header_errors() {
    assert_eq!(error_of(1, 1, &[]), "stream underrun");
    assert_eq!(error_of(1, 1, &[0]), "stream underrun");
    assert_eq!(error_of(1, 1, &[0x02, 0]), "GLYPH_HIT without GLYPH_INDEX");
    assert_eq!(error_of(1025, 1024, &[0x01, 0, 0, 0]), "glyph rect larger than 1024x1024");
    assert_eq!(error_of(1, 1, &[0x01, 0, 0]), "stream underrun");
    assert_eq!(error_of(1, 1, &[0x01, 0, 0xA0, 0x0F]), "glyph index out of range");
    assert_eq!(error_of(1, 1, &[0x03, 0, 0x9F, 0x0F]), "glyph cache entry smaller than rect");
    assert_eq!(error_of(1, 1, &[0x01, 0, 0x9F, 0x0F]), "missing composition payload header");
    assert_eq!(error_of(1, 1, &stream(&[], &[], &[])[..13]), "missing composition payload header");
}

#[test]
fn layer_sizes_must_fit() {
    let whole = stream(&[0, 0, 0, 1], &band(0, 0, 0, 0, [0; 3], &[0, 0]), &[1]);
    assert_eq!(error_of(1, 1, &whole[..17]), "stream underrun");
    assert_eq!(error_of(1, 1, &whole[..30]), "stream underrun");
    assert_eq!(error_of(1, 1, &whole[..31]), "stream underrun");
}

#[test]
fn residual_errors() {
    assert_eq!(error_of(1, 1, &stream(&[0, 0], &[], &[])), "stream underrun");
    assert_eq!(error_of(1, 1, &stream(&[0, 0, 0], &[], &[])), "stream underrun");
    assert_eq!(error_of(1, 1, &stream(&[0, 0, 0, 0xFF, 0], &[], &[])), "stream underrun");
    assert_eq!(
        error_of(1, 1, &stream(&[0, 0, 0, 0xFF, 0xFF, 0xFF, 0, 0, 0], &[], &[])),
        "stream underrun"
    );
    assert_eq!(error_of(1, 1, &stream(&[0, 0, 0, 2], &[], &[])), "residual run overflows rect");
    assert_eq!(error_of(2, 1, &stream(&[0, 0, 0, 1], &[], &[])), "residual does not cover rect");
}

#[test]
fn failed_residual_keeps_its_runs() {
    let mut out = vec![7u8; 12];
    let src = stream(&[0, 0, 1, 2, 0, 0, 0, 5], &[], &[]);
    assert!(ClearDecoder::new().decode(&src, 3, 1, &mut out).is_err());
    assert_eq!(out, [1, 0, 0, 0xFF, 1, 0, 0, 0xFF, 7, 7, 7, 7]);
}

#[test]
fn band_errors() {
    let error = |layer: Vec<u8>| error_of(2, 60, &stream(&[], &layer, &[]));
    assert_eq!(error(vec![0; 10]), "stream underrun");
    assert_eq!(error(band(1, 0, 0, 0, [0; 3], &[0, 0])), "band xEnd < xStart");
    assert_eq!(error(band(0, 0, 1, 0, [0; 3], &[0, 0])), "band yEnd < yStart");
    assert_eq!(error(band(0, 0, 0, 52, [0; 3], &[0, 0])), "band vBar height > 52");
    assert_eq!(error(band(0, 0, 0, 0, [0; 3], &[0])), "stream underrun");
    assert_eq!(error(band(0, 0, 0, 0, [0; 3], &[0x02, 0x01])), "short vBar yOff < yOn");
    assert_eq!(error(band(0, 0, 0, 0, [0; 3], &[0x00, 0x35])), "short vBar pixel count > 52");
    assert_eq!(error(band(0, 0, 0, 0, [0; 3], &[0x00, 0x01, 1, 2])), "stream underrun");
    assert_eq!(error(band(0, 0, 0, 0, [0; 3], &[0x00, 0x40])), "stream underrun");
    assert_eq!(error(band(2, 2, 0, 0, [0; 3], &[0, 0])), "band column outside rect");
    assert_eq!(error(band(0, 0, 59, 60, [0; 3], &[0, 0])), "band row outside rect");
}

#[test]
fn subcodec_errors() {
    let error = |layer: Vec<u8>| error_of(2, 2, &stream(&[], &[], &layer));
    assert_eq!(error(vec![0; 12]), "stream underrun");
    assert_eq!(error(subcodec(0, 0, 1, 1, 0, &[0; 3])[..15].to_vec()), "stream underrun");
    assert_eq!(error(subcodec(1, 0, 2, 1, 0, &[])), "subcodec rect outside destination");
    assert_eq!(error(subcodec(0, 1, 1, 2, 0, &[])), "subcodec rect outside destination");
    assert_eq!(error(subcodec(0, 0, 1, 1, 0, &[0; 4])), "raw subcodec size mismatch");
    assert_eq!(error(subcodec(0, 0, 1, 1, 1, &[])), "NSCodec subcodec not supported");
    assert_eq!(error(subcodec(0, 0, 1, 1, 3, &[])), "unknown subcodec id");
}

#[test]
fn palette_errors() {
    let error = |data: &[u8]| error_of(2, 1, &stream(&[], &[], &subcodec(0, 0, 2, 1, 2, data)));
    assert_eq!(error(&[]), "stream underrun");
    assert_eq!(error(&[0]), "RLEX palette count out of range");
    assert_eq!(error(&[128]), "RLEX palette count out of range");
    assert_eq!(error(&[1, 0, 0]), "stream underrun");
    assert_eq!(error(&[1, 0, 0, 0, 0]), "stream underrun");
    assert_eq!(error(&[1, 0, 0, 0, 1, 0]), "RLEX palette index out of range");
    assert_eq!(error(&[2, 0, 0, 0, 0, 0, 0, 2, 0]), "RLEX palette index out of range");
    assert_eq!(error(&[1, 0, 0, 0, 0, 3]), "RLEX background run overflows rect");
    assert_eq!(error(&[1, 0, 0, 0, 0, 2]), "RLEX suite overflows rect");
    assert_eq!(error(&[1, 0, 0, 0, 0, 0]), "RLEX does not cover rect");
}

#[test]
fn single_column_shows_its_bar() {
    // Rows 1 to 3 of column 1. The short bar has three pixels from the second row on, and the
    // last one lies beyond the band.
    let bgr = [1, 2, 3, 4, 5, 6, 7, 8, 9];
    let inline = [&[0x01, 0x04][..], &bgr[..]].concat();
    let before: Vec<u8> = (0..3 * 5 * 4).collect();
    let mut expected = before.clone();
    for (row, color) in [(1, [13, 12, 11]), (2, [3, 2, 1]), (3, [6, 5, 4])] {
        let at = (row * 3 + 1) * 4;
        expected[at..at + 3].copy_from_slice(&color);
        expected[at + 3] = 0xFF;
    }
    let mut decoder = ClearDecoder::new();
    let mut out = before.clone();
    let layer = band(1, 1, 1, 3, [11, 12, 13], &inline);
    assert!(decoder.decode_bands(&layer, 3, 5, &mut out).is_ok());
    assert_eq!(out, expected);
    // The short bar from its place in the cache shows the same.
    let mut out = before.clone();
    let layer = band(1, 1, 1, 3, [11, 12, 13], &[0x00, 0x40, 0x01]);
    assert!(decoder.decode_bands(&layer, 3, 5, &mut out).is_ok());
    assert_eq!(out, expected);
    // From a row beyond the band on it does not show.
    let mut out = before.clone();
    let layer = band(1, 1, 1, 3, [11, 12, 13], &[0x00, 0x40, 0xFF]);
    assert!(decoder.decode_bands(&layer, 3, 5, &mut out).is_ok());
    for row in 1..4 {
        let at = (row * 3 + 1) * 4;
        assert_eq!(out[at..at + 4], [13, 12, 11, 0xFF]);
    }
}

#[test]
fn layers_can_come_one_by_one() {
    let residual = [0, 0, 1, 6];
    let bands = band(1, 2, 0, 1, [0, 0, 2], &[0x00, 0x01, 7, 7, 7, 0x00, 0x40, 0x01]);
    let raw = subcodec(0, 1, 2, 1, 0, &[0, 0, 3, 0, 0, 4]);
    let mut whole = ClearDecoder::new();
    let mut at_once = vec![0u8; 24];
    let src = flagged(&[0x04, 9], &residual, &bands, &raw);
    assert!(whole.decode(&src, 3, 2, &mut at_once).is_ok());

    let mut parts = ClearDecoder::new();
    let mut out = vec![0u8; 24];
    for src in [
        flagged(&[0x04, 9], &residual, &[], &[]),
        flagged(&[0x00, 10], &[], &bands, &[]),
        flagged(&[0x00, 11], &[], &[], &raw),
    ] {
        assert!(parts.decode(&src, 3, 2, &mut out).is_ok());
    }
    let expected: [[u8; 4]; 6] = [
        [1, 0, 0, 0xFF],
        [7, 7, 7, 0xFF],
        [2, 0, 0, 0xFF],
        [3, 0, 0, 0xFF],
        [4, 0, 0, 0xFF],
        [7, 7, 7, 0xFF],
    ];
    assert_eq!(at_once, expected.concat());
    assert_eq!(out, at_once);
    // Both have the same bars.
    for place in 0..3 {
        let hit = band(0, 0, 0, 1, [0, 0, 0], &[place, 0x80]);
        let mut a = vec![0u8; 8];
        let mut b = vec![0u8; 8];
        assert!(whole.decode(&stream(&[], &hit, &[]), 1, 2, &mut a).is_ok());
        assert!(parts.decode(&stream(&[], &hit, &[]), 1, 2, &mut b).is_ok());
        assert_eq!(a, b);
    }
}

#[test]
fn failed_layer_ends_the_stream() {
    let residual = [0, 0, 1, 2];
    let outside = band(2, 2, 0, 0, [0, 0, 2], &[0x00, 0x00]);
    let raw = subcodec(0, 0, 1, 1, 0, &[0, 0, 3]);
    let mut out = vec![0u8; 8];
    let end = ClearDecoder::new().decode(&stream(&residual, &outside, &raw), 2, 1, &mut out);
    assert!(matches!(end, Err(ClearDecodeError("band column outside rect"))));
    assert_eq!(out, [1, 0, 0, 0xFF, 1, 0, 0, 0xFF]);
}

#[test]
fn bars_made_after_a_reset_stand_in_order() {
    let mut decoder = ClearDecoder::new();
    let mut out = vec![0u8; 12];
    // Three bars are made, two of them from inline short bars.
    let bars = |reds: [u8; 2]| {
        [&[0x00, 0x01, 0, 0, reds[0]][..], &[0x00, 0x01, 0, 0, reds[1]], &[0x00, 0x40, 0]].concat()
    };
    let before = band(0, 2, 0, 0, [0, 0, 0], &bars([8, 9]));
    assert!(decoder.decode(&stream(&[], &before, &[]), 3, 1, &mut out).is_ok());
    let after = band(0, 2, 0, 0, [0, 0, 0], &bars([1, 2]));
    assert!(decoder.decode(&flagged(&[0x04, 0], &[], &after, &[]), 3, 1, &mut out).is_ok());
    let shown = |decoder: &mut ClearDecoder, bar: &[u8]| {
        let mut out = vec![0u8; 4];
        let layer = band(0, 0, 0, 0, [0, 0, 0], bar);
        assert!(decoder.decode(&stream(&[], &layer, &[]), 1, 1, &mut out).is_ok());
        out[0]
    };
    assert_eq!(shown(&mut decoder, &[0x00, 0x80]), 1);
    assert_eq!(shown(&mut decoder, &[0x01, 0x80]), 2);
    assert_eq!(shown(&mut decoder, &[0x02, 0x80]), 1);
    assert_eq!(shown(&mut decoder, &[0x00, 0x40, 0]), 1);
    assert_eq!(shown(&mut decoder, &[0x01, 0x40, 0]), 2);
}

#[test]
fn painted_pixels_are_opaque() {
    // A destination of transparent pixels: what is not painted stays as it is, on success and on
    // failure.
    let bands = band(1, 1, 0, 0, [0, 0, 2], &[0x00, 0x00]);
    let mut out = vec![5u8; 12];
    assert!(ClearDecoder::new().decode(&stream(&[], &bands, &[]), 3, 1, &mut out).is_ok());
    assert_eq!(out, [5, 5, 5, 5, 2, 0, 0, 0xFF, 5, 5, 5, 5]);
    let outside = band(2, 3, 0, 0, [0, 0, 2], &[0x00, 0x00, 0x00, 0x00]);
    let mut out = vec![5u8; 12];
    assert!(ClearDecoder::new().decode(&stream(&[], &outside, &[]), 3, 1, &mut out).is_err());
    assert_eq!(out, [5, 5, 5, 5, 5, 5, 5, 5, 2, 0, 0, 0xFF]);
}

#[test]
fn residual_of_an_empty_rectangle() {
    let mut out: Vec<u8> = Vec::new();
    assert!(decode_residual(&[], 0, 4, &mut out).is_ok());
    assert!(decode_residual(&[1, 2, 3, 0], 0, 4, &mut out).is_ok());
    match decode_residual(&[1, 2, 3, 1], 0, 4, &mut out) {
        Ok(()) => panic!("decoded"),
        Err(e) => assert_eq!(e.0, "residual run overflows rect"),
    }
}
