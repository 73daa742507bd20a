use rdp_codec::rfx_progressive::{
    ComponentCodecQuant, DecodedStream, FirstPassData, InclusiveRectangle, ProgressiveBlock,
    ProgressiveCodecQuant, ProgressiveDecoder, ProgressiveError, ProgressiveRegion,
    ProgressiveTile, ProgressiveUpdate, RfxRectangle, TileFirst, TileSimple, TileUpgrade,
};
use rdp_codec::rfx_progressive::bits::BitStream;
use rdp_codec::rfx_progressive::upgrade::{upgrade_block, UpgradeState};

type Stream = Result<Vec<ProgressiveBlock>, String>;

fn quant(n: u8) -> ComponentCodecQuant {
    ComponentCodecQuant {
        ll3: n,
        hl3: n,
        lh3: n,
        hh3: n,
        hl2: n,
        lh2: n,
        hh2: n,
        hl1: n,
        lh1: n,
        hh1: n,
    }
}

fn prog(n: u8) -> ProgressiveCodecQuant {
    ProgressiveCodecQuant { y_quant: quant(n), cb_quant: quant(n), cr_quant: quant(n) }
}

/// Coefficients that are zero but for the given ones. The last band stays as it is.
fn pass(extrapolate: bool, values: &[(usize, i16)]) -> Result<FirstPassData, String> {
    let mut coefficients = vec![0i16; 4096];
    for (i, v) in values {
        coefficients[*i] = *v;
    }
    let ll3 = coefficients[if extrapolate { 4015 } else { 4032 }..].to_vec();
    Ok(FirstPassData { coefficients, ll3 })
}

fn first(x: u16, y: u16, quality: u8, values: &[(usize, i16)]) -> ProgressiveTile {
    ProgressiveTile::First(TileFirst {
        quant_idx_y: 0,
        quant_idx_cb: 0,
        quant_idx_cr: 0,
        x_idx: x,
        y_idx: y,
        flags: 0,
        quality,
        y_data: pass(true, values),
        cb_data: pass(true, &[]),
        cr_data: pass(true, &[]),
    })
}

fn simple(x: u16, y: u16, flags: u8, values: &[(usize, i16)]) -> ProgressiveTile {
    ProgressiveTile::Simple(TileSimple {
        quant_idx_y: 0,
        quant_idx_cb: 0,
        quant_idx_cr: 0,
        x_idx: x,
        y_idx: y,
        flags,
        y_data: pass(true, values),
        cb_data: pass(true, &[]),
        cr_data: pass(true, &[]),
    })
}

fn upgrade(x: u16, y: u16, quality: u8, srl: &[u8], raw: &[u8]) -> ProgressiveTile {
    ProgressiveTile::Upgrade(TileUpgrade {
        quant_idx_y: 0,
        quant_idx_cb: 0,
        quant_idx_cr: 0,
        x_idx: x,
        y_idx: y,
        quality,
        y_srl_data: srl.to_vec(),
        y_raw_data: raw.to_vec(),
        cb_srl_data: Vec::new(),
        cb_raw_data: Vec::new(),
        cr_srl_data: Vec::new(),
        cr_raw_data: Vec::new(),
    })
}

fn rect(x: u16, y: u16, width: u16, height: u16) -> RfxRectangle {
    RfxRectangle { x, y, width, height }
}

/// A region whose quantization is 1 throughout, with progressive quantizations of 0 to 15.
fn region(rects: Vec<RfxRectangle>, tiles: Vec<ProgressiveTile>) -> ProgressiveRegion {
    ProgressiveRegion {
        rects,
        quant_vals: vec![quant(1)],
        quant_prog_vals: (0..16).map(prog).collect(),
        reduce_extrapolate: true,
        tiles,
    }
}

fn stream(regions: Vec<ProgressiveRegion>) -> Stream {
    let mut blocks = vec![
        ProgressiveBlock::Sync,
        ProgressiveBlock::Context,
        ProgressiveBlock::FrameBegin,
    ];
    blocks.extend(regions.into_iter().map(ProgressiveBlock::Region));
    blocks.push(ProgressiveBlock::FrameEnd);
    Ok(blocks)
}

fn run(decoder: &mut ProgressiveDecoder, tiles: Vec<ProgressiveTile>) -> DecodedStream {
    decoder.decode(&stream(vec![region(vec![rect(0, 0, 64, 64)], tiles)])).unwrap()
}

fn y_plane(decoder: &mut ProgressiveDecoder, tile: ProgressiveTile) -> Vec<i16> {
    let mut decoded = run(decoder, vec![tile]);
    assert_eq!(decoded.update.first_error, None);
    assert_eq!(decoded.tiles.len(), 1);
    decoded.tiles.remove(0).planes.y
}

#[test]
fn surface_has_a_size() {
    let decoder = ProgressiveDecoder::new(1920, 1080);
    assert_eq!(decoder.width(), 1920);
    assert_eq!(decoder.height(), 1080);
}

#[test]
fn parse_error_is_passed_on() {
    let mut decoder = ProgressiveDecoder::new(64, 64);
    let e = decoder.decode(&Err("bad block".to_owned())).unwrap_err();
    assert_eq!(e.0, "parse stream: bad block");
    assert_eq!(e.message(), "rfx-progressive: parse stream: bad block");
    assert_eq!(ProgressiveError(String::new()).message(), "rfx-progressive: ");
}

#[test]
fn default_update_is_empty() {
    let update = ProgressiveUpdate::default();
    assert!(update.dirty.is_empty());
    assert_eq!(update.errors, 0);
    assert_eq!(update.first_error, None);
    assert_eq!(update.first_black, None);
    assert!(!update.extrapolate);
}

#[test]
fn blocks_without_pixels_do_nothing() {
    let mut decoder = ProgressiveDecoder::new(64, 64);
    let decoded = decoder.decode(&stream(vec![])).unwrap();
    assert!(decoded.tiles.is_empty());
    assert_eq!(decoded.update.regions, 0);
}

#[test]
fn first_pass_shifts_each_band() {
    // Quantization 1 and progressive quantization 5: a shift by 5. The last band is shifted too.
    let mut decoder = ProgressiveDecoder::new(64, 64);
    let plane = y_plane(&mut decoder, first(0, 0, 5, &[(0, 3), (4014, -2), (4015, 1), (4095, -1)]));
    assert_eq!(plane[0], 96);
    assert_eq!(plane[4014], -64);
    assert_eq!(plane[4015], 32);
    assert_eq!(plane[4095], -32);
    assert_eq!(plane.iter().filter(|v| **v != 0).count(), 4);
}

#[test]
fn bands_have_their_own_shift() {
    let mut q = quant(1);
    q.hl1 = 2;
    q.lh1 = 3;
    q.hh1 = 4;
    q.hl2 = 5;
    q.lh2 = 6;
    q.hh2 = 7;
    q.hl3 = 8;
    q.lh3 = 9;
    q.hh3 = 10;
    q.ll3 = 11;
    let shown = |extrapolate: bool, starts: [usize; 10]| {
        let values: Vec<(usize, i16)> = starts.iter().map(|i| (*i, 1)).collect();
        let tile = ProgressiveTile::Simple(TileSimple {
            quant_idx_y: 0,
            quant_idx_cb: 0,
            quant_idx_cr: 0,
            x_idx: 0,
            y_idx: 0,
            flags: 0,
            y_data: pass(extrapolate, &values),
            cb_data: pass(extrapolate, &[]),
            cr_data: pass(extrapolate, &[]),
        });
        let region = ProgressiveRegion {
            rects: vec![],
            quant_vals: vec![q],
            quant_prog_vals: vec![],
            reduce_extrapolate: extrapolate,
            tiles: vec![tile],
        };
        let mut decoder = ProgressiveDecoder::new(64, 64);
        let decoded = decoder.decode(&stream(vec![region])).unwrap();
        assert_eq!(decoded.update.extrapolate, extrapolate);
        assert_eq!(decoded.tiles[0].extrapolate, extrapolate);
        starts.map(|i| decoded.tiles[0].planes.y[i])
    };
    let expected = [2, 4, 8, 16, 32, 64, 128, 256, 512, 1024];
    assert_eq!(
        shown(false, [0, 1024, 2048, 3072, 3328, 3584, 3840, 3904, 3968, 4032]),
        expected
    );
    assert_eq!(shown(true, [0, 1023, 2046, 3007, 3279, 3551, 3807, 3879, 3951, 4015]), expected);
    // The coefficients in front of a start belong to the band before.
    assert_eq!(
        shown(false, [1023, 2047, 3071, 3327, 3583, 3839, 3903, 3967, 4031, 4095]),
        expected
    );
    assert_eq!(shown(true, [1022, 2045, 3006, 3278, 3550, 3806, 3878, 3950, 4014, 4095]), expected);
}

#[test]
fn summed_last_band_is_shown() {
    let mut data = pass(true, &[]).unwrap();
    data.coefficients[4016] = 5;
    data.ll3[0] = 7;
    data.ll3[80] = -3;
    let tile = ProgressiveTile::Simple(TileSimple {
        quant_idx_y: 0,
        quant_idx_cb: 0,
        quant_idx_cr: 0,
        x_idx: 0,
        y_idx: 0,
        flags: 0,
        y_data: Ok(data),
        cb_data: pass(true, &[]),
        cr_data: pass(true, &[]),
    });
    let plane = y_plane(&mut ProgressiveDecoder::new(64, 64), tile);
    assert_eq!(plane[4015], 7);
    assert_eq!(plane[4016], 0);
    assert_eq!(plane[4095], -3);
}

#[test]
fn shifts_wrap_in_sixteen_bits() {
    // A shift by 15.
    let plane = y_plane(&mut ProgressiveDecoder::new(64, 64), first(0, 0, 15, &[(0, 3), (1, 2)]));
    assert_eq!(plane[0], -32768);
    assert_eq!(plane[1], 0);
    // The distance counts modulo the width: a shift by 17 is one by 1.
    let mut r = region(vec![], vec![first(0, 0, 15, &[(0, 3)])]);
    r.quant_vals = vec![quant(3)];
    let mut decoder = ProgressiveDecoder::new(64, 64);
    let decoded = decoder.decode(&stream(vec![r])).unwrap();
    assert_eq!(decoded.tiles[0].planes.y[0], 6);
}

#[test]
fn differences_are_added() {
    let mut decoder = ProgressiveDecoder::new(64, 64);
    let mut decoded = run(&mut decoder, vec![simple(0, 0, 1, &[(0, 5), (1, 32767)])]);
    assert_eq!(decoded.update.coeff_diff_tiles, 1);
    assert_eq!(decoded.tiles.remove(0).planes.y[0], 5);
    let plane = y_plane(&mut decoder, simple(0, 0, 1, &[(0, -7), (1, 2)]));
    assert_eq!(plane[0], -2);
    assert_eq!(plane[1], -32767);
    // A pass that is no difference starts over.
    let plane = y_plane(&mut decoder, simple(0, 0, 0, &[(0, 1)]));
    assert_eq!(plane[0], 1);
    assert_eq!(plane[1], 0);
}

#[test]
fn upgrade_of_known_signs_takes_raw_bits() {
    let mut decoder = ProgressiveDecoder::new(64, 64);
    // Down to bit 4 first (1 + 3), then down to bit 2 (1 + 1): two bits each, shifted by 1.
    let plane = y_plane(&mut decoder, first(0, 0, 3, &[(0, 1), (1, -1)]));
    assert_eq!(plane[..2], [8, -8]);
    // The first gains 0b10, the second 0b01. All others are zero: the run in the SRL stream ends
    // with the stream, so they stay.
    let plane = y_plane(&mut decoder, upgrade(0, 0, 1, &[], &[0b1001_0000]));
    assert_eq!(plane[..4], [12, -10, 0, 0]);
    assert_eq!(plane.iter().filter(|v| **v != 0).count(), 2);
}

#[test]
fn upgrade_of_the_last_band_takes_raw_bits() {
    let mut decoder = ProgressiveDecoder::new(64, 64);
    y_plane(&mut decoder, first(0, 0, 2, &[]));
    // One bit for each of the 81 coefficients of the last band, shifted by 1.
    let plane = y_plane(&mut decoder, upgrade(0, 0, 1, &[], &[0b1010_0000]));
    assert_eq!(plane[4015..4019], [2, 0, 2, 0]);
    assert_eq!(plane.iter().filter(|v| **v != 0).count(), 2);
}

#[test]
fn upgrade_of_zeros_takes_srl_values() {
    let mut decoder = ProgressiveDecoder::new(64, 64);
    y_plane(&mut decoder, first(0, 0, 2, &[]));
    // The parameter starts at 1: a one, then the run length in one bit, then the sign. First comes
    // no zero and a positive value, then, with the parameter at 0, a one and a negative value.
    // One bit of magnitude is 1 without more bits. Behind that come only zeros.
    let plane = y_plane(&mut decoder, upgrade(0, 0, 1, &[0b1001_1000], &[]));
    assert_eq!(plane[..4], [2, -2, 0, 0]);
    assert_eq!(plane.iter().filter(|v| **v != 0).count(), 2);
    // The signs are known now: the next bit comes from the RAW stream.
    let plane = y_plane(&mut decoder, upgrade(0, 0, 0, &[], &[0b1100_0000]));
    assert_eq!(plane[..4], [3, -3, 0, 0]);
}

#[test]
fn srl_runs_count_their_zeros() {
    let mut decoder = ProgressiveDecoder::new(64, 64);
    y_plane(&mut decoder, first(0, 0, 2, &[]));
    // A zero is a run of two zeros and raises the parameter to 12. Then a one with the run length
    // 1, so one zero, and a positive value.
    let plane = y_plane(&mut decoder, upgrade(0, 0, 1, &[0b0110_0000], &[]));
    assert_eq!(plane[..5], [0, 0, 0, 2, 0]);
    assert_eq!(plane.iter().filter(|v| **v != 0).count(), 1);
}

#[test]
fn srl_magnitudes_are_unary() {
    let mut decoder = ProgressiveDecoder::new(64, 64);
    y_plane(&mut decoder, first(0, 0, 4, &[]));
    // Three bits, so magnitudes up to 7. A one, no zeros, positive, two zeros and a one: 3. Then,
    // with the parameter at 0, a one, negative, six zeros and no one: 7. The shift is by 1.
    let srl = [0b1000_0111, 0b0000_0000];
    let plane = y_plane(&mut decoder, upgrade(0, 0, 1, &srl, &[]));
    assert_eq!(plane[..3], [6, -14, 0]);
}

#[test]
fn upgrade_without_new_bits_changes_nothing() {
    let mut decoder = ProgressiveDecoder::new(64, 64);
    let before = y_plane(&mut decoder, first(0, 0, 1, &[(0, 1), (5, -9)]));
    let after = y_plane(&mut decoder, upgrade(0, 0, 6, &[0xFF; 9], &[0xFF; 9]));
    assert_eq!(before, after);
}

#[test]
fn full_quality_needs_no_table() {
    let mut r = region(vec![], vec![first(0, 0, 0xFF, &[(0, 7)])]);
    r.quant_prog_vals = vec![];
    let mut decoder = ProgressiveDecoder::new(64, 64);
    let decoded = decoder.decode(&stream(vec![r])).unwrap();
    assert_eq!(decoded.update.errors, 0);
    assert_eq!(decoded.tiles[0].planes.y[0], 7);
}

#[test]
fn tile_errors() {
    let error = |tile: ProgressiveTile| {
        let decoded = run(&mut ProgressiveDecoder::new(100, 64), vec![tile]);
        assert_eq!(decoded.update.errors, 1);
        assert!(decoded.tiles.is_empty());
        decoded.update.first_error.unwrap()
    };
    assert_eq!(error(first(2, 0, 0, &[])), "tile (2,0): index (2,0) outside grid 2x1");
    assert_eq!(error(first(0, 65535, 0, &[])), "tile (0,65535): index (0,65535) outside grid 2x1");
    assert_eq!(error(first(1, 0, 16, &[])), "tile (1,0): prog-quant quality 16 out of range");
    assert_eq!(error(upgrade(1, 0, 0, &[], &[])), "tile (1,0): upgrade before first pass");
    assert_eq!(
        error(upgrade(1, 0, 254, &[], &[])),
        "tile (1,0): prog-quant quality 254 out of range"
    );
    let mut bad = first(0, 0, 0, &[]);
    if let ProgressiveTile::First(t) = &mut bad {
        t.quant_idx_cb = 10;
        t.quant_idx_cr = 11;
    }
    assert_eq!(error(bad), "tile (0,0): quant index 10 out of range");
    let mut bad = first(0, 0, 0, &[]);
    if let ProgressiveTile::First(t) = &mut bad {
        t.cr_data = Err("out of data".to_owned());
    }
    assert_eq!(error(bad), "tile (0,0): rlgr decode: out of data");
}

#[test]
fn failed_component_keeps_the_ones_before() {
    let mut decoder = ProgressiveDecoder::new(64, 64);
    y_plane(&mut decoder, first(0, 0, 0, &[(0, 1)]));
    let mut bad = first(0, 0, 2, &[(0, 3)]);
    if let ProgressiveTile::First(t) = &mut bad {
        t.cb_data = Err(String::new());
    }
    let decoded = run(&mut decoder, vec![bad]);
    assert_eq!(decoded.update.errors, 1);
    assert_eq!(decoded.update.tiles_first, 0);
    // The upgrade goes from bit 3 to bit 1: two bits in place.
    let plane = y_plane(&mut decoder, upgrade(0, 0, 0, &[], &[0b1100_0000]));
    assert_eq!(plane[0], 12 + 3);
}

#[test]
fn bad_tile_does_not_hurt_the_others() {
    let mut decoder = ProgressiveDecoder::new(128, 128);
    let tiles = vec![
        first(0, 0, 0, &[(0, 1)]),
        upgrade(1, 1, 0, &[], &[]),
        first(9, 9, 0, &[]),
        simple(1, 0, 0, &[(0, 2)]),
        upgrade(0, 0, 0, &[], &[]),
    ];
    let decoded = run(&mut decoder, tiles);
    let update = &decoded.update;
    assert_eq!((update.tiles_simple, update.tiles_first, update.tiles_upgrade), (1, 1, 1));
    assert_eq!(update.errors, 2);
    assert_eq!(update.first_error.as_deref(), Some("tile (1,1): upgrade before first pass"));
    let places: Vec<(u16, u16)> = decoded.tiles.iter().map(|t| (t.x_idx, t.y_idx)).collect();
    assert_eq!(places, [(0, 0), (1, 0), (0, 0)]);
    assert_eq!(decoded.tiles[2].planes.y[0], 1);
}

#[test]
fn reset_forgets_every_tile() {
    let mut decoder = ProgressiveDecoder::new(64, 64);
    y_plane(&mut decoder, first(0, 0, 0, &[(0, 1)]));
    assert_eq!(run(&mut decoder, vec![upgrade(0, 0, 0, &[], &[])]).update.errors, 0);
    decoder.reset();
    assert_eq!((decoder.width(), decoder.height()), (64, 64));
    let decoded = run(&mut decoder, vec![upgrade(0, 0, 0, &[], &[])]);
    assert_eq!(decoded.update.errors, 1);
    let plane = y_plane(&mut decoder, simple(0, 0, 1, &[(0, 4)]));
    assert_eq!(plane[0], 4);
}

#[test]
fn regions_are_counted() {
    let mut decoder = ProgressiveDecoder::new(64, 64);
    let one = region(vec![rect(0, 0, 1, 1), rect(1, 1, 1, 1)], vec![]);
    let mut two = region(vec![rect(0, 0, 1, 1)], vec![]);
    two.reduce_extrapolate = false;
    let update = decoder.decode(&stream(vec![one, two])).unwrap().update;
    assert_eq!(update.regions, 2);
    assert_eq!(update.region0_rects, 2);
    assert!(!update.extrapolate);
}

/// A tile in one color, with its place in the green and blue channels at the corner.
fn tile_pixels(red: u8) -> Vec<u8> {
    let mut pixels = Vec::new();
    for y in 0..64u8 {
        for x in 0..64u8 {
            pixels.extend([red, x, y, 0xFF]);
        }
    }
    pixels
}

fn painted(
    size: (u16, u16),
    rects: Vec<RfxRectangle>,
    tiles: Vec<(u16, u16)>,
    dst: &mut [u8],
    stride: usize,
) -> ProgressiveUpdate {
    let mut decoder = ProgressiveDecoder::new(size.0, size.1);
    let tiles = tiles.into_iter().map(|(x, y)| first(x, y, 0, &[])).collect();
    let stream = stream(vec![region(rects, tiles)]);
    let mut decoded = decoder.decode(&stream).unwrap();
    let pixels: Vec<Vec<u8>> =
        decoded.tiles.iter().map(|t| tile_pixels(100 + t.x_idx as u8)).collect();
    let blocks = stream.unwrap();
    decoder.paint(&blocks, &decoded.tiles, &pixels, dst, stride, &mut decoded.update);
    decoded.update
}

fn inclusive(left: u16, top: u16, right: u16, bottom: u16) -> InclusiveRectangle {
    InclusiveRectangle { left, top, right, bottom }
}

#[test]
fn painting_is_clipped_to_rectangles_and_surface() {
    // A surface of 70 by 66 pixels, with 4 bytes to spare in every row.
    let stride = 284;
    let mut dst = vec![7u8; stride * 66];
    let rects = vec![rect(62, 1, 3, 2), rect(60, 65, 900, 900), rect(200, 0, 5, 5)];
    let update = painted((70, 66), rects, vec![(0, 0), (1, 0), (1, 1)], &mut dst, stride);
    assert_eq!(
        update.dirty,
        [inclusive(62, 1, 63, 2), inclusive(64, 1, 64, 2), inclusive(64, 65, 69, 65)]
    );
    for y in 0..66usize {
        for x in 0..71usize {
            let px = &dst[y * stride + 4 * x..][..4];
            let shown = (62..65).contains(&x) && (1..3).contains(&y)
                || (64..70).contains(&x) && y == 65;
            if shown {
                let expected = [100 + (x / 64) as u8, (x % 64) as u8, (y % 64) as u8, 0xFF];
                assert_eq!(px, expected, "({}, {})", x, y);
            } else {
                assert_eq!(px, [7; 4], "({}, {})", x, y);
            }
        }
    }
}

#[test]
fn painting_stops_at_the_end_of_the_framebuffer() {
    // The last pixel of the second row does not fit.
    let mut dst = vec![7u8; 15];
    let update = painted((2, 2), vec![rect(0, 0, 2, 2)], vec![(0, 0)], &mut dst, 8);
    assert_eq!(update.dirty, [inclusive(0, 0, 1, 1)]);
    let expected = [100, 0, 0, 0xFF, 100, 1, 0, 0xFF, 100, 0, 1, 0xFF, 7, 7, 7];
    assert_eq!(dst, expected);
    // Nothing of the second row fits where the rows are far apart.
    let mut dst = vec![7u8; 8];
    painted((2, 2), vec![rect(0, 0, 2, 2)], vec![(0, 0)], &mut dst, usize::MAX);
    assert_eq!(dst, [100, 0, 0, 0xFF, 100, 1, 0, 0xFF]);
}

#[test]
fn undecoded_tile_is_not_painted() {
    let mut dst = vec![7u8; 64 * 64 * 4];
    let update = painted((64, 64), vec![rect(0, 0, 64, 64)], vec![(5, 5)], &mut dst, 256);
    assert_eq!(update.errors, 1);
    assert!(update.dirty.is_empty());
    assert_eq!(dst, vec![7u8; 64 * 64 * 4]);
}

#[test]
fn black_tiles_are_noted() {
    let mut decoder = ProgressiveDecoder::new(192, 64);
    let tiles = (0..3).map(|x| first(x, 0, 0, &[])).collect();
    let stream = stream(vec![region(vec![rect(0, 0, 192, 64)], tiles)]);
    let mut decoded = decoder.decode(&stream).unwrap();
    let bright = vec![11u8; 64 * 64 * 4];
    let dark = vec![10u8; 64 * 64 * 4];
    // Only nine pixels are looked at.
    let mut speck = dark.clone();
    speck[0] = 255;
    let blocks = stream.unwrap();
    let mut dst = vec![0u8; 768 * 64];
    let pixels = vec![bright, dark.clone(), speck];
    decoder.paint(&blocks, &decoded.tiles, &pixels, &mut dst, 768, &mut decoded.update);
    assert_eq!(decoded.update.black_tiles, 2);
    assert_eq!(decoded.update.first_black, Some((1, 0)));
    // Each of the nine counts, in each color.
    for y in [4usize, 32, 60] {
        for x in [4usize, 32, 60] {
            for channel in 0..3 {
                let mut pixels = dark.clone();
                pixels[4 * (64 * y + x) + channel] = 11;
                let pixels = vec![pixels.clone(), pixels.clone(), pixels];
                let mut update = ProgressiveUpdate::default();
                decoder.paint(&blocks, &decoded.tiles, &pixels, &mut dst, 768, &mut update);
                assert_eq!(update.black_tiles, 0);
            }
        }
    }
}

#[test]
fn refused_tile_might_be_missing() {
    let tiles = |refused: bool| {
        let mut tiles = vec![first(0, 0, 2, &[(0, 1)])];
        if refused {
            tiles.push(first(0, 0, 200, &[(0, 9)]));
            tiles.push(upgrade(1, 0, 0, &[], &[]));
        }
        tiles.push(upgrade(0, 0, 1, &[], &[0b1000_0000]));
        tiles
    };
    let with = run(&mut ProgressiveDecoder::new(128, 64), tiles(true));
    let without = run(&mut ProgressiveDecoder::new(128, 64), tiles(false));
    assert_eq!(with.update.errors, 2);
    assert_eq!(without.update.errors, 0);
    assert_eq!(with.tiles.len(), without.tiles.len());
    for (a, b) in with.tiles.iter().zip(&without.tiles) {
        assert_eq!(a.planes.y, b.planes.y);
    }
    assert_eq!(with.tiles[1].planes.y[0], 4 + 2);
}

#[test]
fn later_pass_is_painted_over_the_first() {
    let mut decoder = ProgressiveDecoder::new(64, 64);
    let tiles = vec![first(0, 0, 2, &[]), upgrade(0, 0, 1, &[], &[])];
    let stream = stream(vec![region(vec![rect(0, 0, 2, 1)], tiles)]);
    let mut decoded = decoder.decode(&stream).unwrap();
    assert_eq!((decoded.update.tiles_first, decoded.update.tiles_upgrade), (1, 1));
    let blocks = stream.unwrap();
    let pixels = vec![tile_pixels(50), tile_pixels(60)];
    let mut dst = vec![0u8; 8];
    decoder.paint(&blocks, &decoded.tiles, &pixels, &mut dst, 256, &mut decoded.update);
    assert_eq!(dst, [60, 0, 0, 0xFF, 60, 1, 0, 0xFF]);
    assert_eq!(decoded.update.dirty, [inclusive(0, 0, 1, 0); 2]);
}

#[test]
fn tiles_of_different_regions_have_their_own_rectangles() {
    let mut decoder = ProgressiveDecoder::new(64, 64);
    let regions = vec![
        region(vec![rect(0, 0, 1, 1)], vec![first(0, 0, 0, &[])]),
        region(vec![rect(1, 0, 1, 1)], vec![first(0, 0, 0, &[])]),
    ];
    let stream = stream(regions);
    let mut decoded = decoder.decode(&stream).unwrap();
    let blocks = stream.unwrap();
    let pixels = vec![tile_pixels(50), tile_pixels(60)];
    let mut dst = vec![0u8; 12];
    decoder.paint(&blocks, &decoded.tiles, &pixels, &mut dst, 12, &mut decoded.update);
    assert_eq!(dst, [50, 0, 0, 0xFF, 60, 1, 0, 0xFF, 0, 0, 0, 0]);
}

#[test]
fn long_runs_of_zeros_are_passed_over() {
    let mut decoder = ProgressiveDecoder::new(64, 64);
    y_plane(&mut decoder, first(0, 0, 2, &[]));
    // Nineteen zeros stand for 2 * (2 + 4 + ... + 512) + 1024 zeros. By then the run length takes
    // ten bits: none, and a negative value.
    let mut bits = vec![0u8; 19];
    bits.push(1);
    bits.extend([0; 10]);
    bits.push(1);
    let srl: Vec<u8> =
        bits.chunks(8).map(|c| c.iter().enumerate().map(|(i, b)| b << (7 - i)).sum()).collect();
    let plane = y_plane(&mut decoder, upgrade(0, 0, 1, &srl, &[]));
    assert_eq!(plane[3068], -2);
    assert_eq!(plane.iter().filter(|v| **v != 0).count(), 1);
}

#[test]
fn srl_values_keep_to_their_bits() {
    // A one, no zeros, positive, and zeros without end.
    let widest = |num_bits: u32| UpgradeState::new(&[0b1000_0000], &[]).srl_read(num_bits);
    assert_eq!(widest(1), 1);
    assert_eq!(widest(2), 3);
    assert_eq!(widest(10), 1023);
    assert_eq!(widest(15), 32767);
    // A coefficient has sixteen bits.
    assert_eq!(widest(16), 32767);
    assert_eq!(widest(17), 32767);
    // The same, negative.
    assert_eq!(UpgradeState::new(&[0b1010_0000], &[]).srl_read(17), -32767);
    // Two zeros and a one end the magnitude, whatever the number of bits.
    let mut state = UpgradeState::new(&[0b1000_0100], &[0xFF]);
    assert_eq!(state.srl_read(31), 3);
    assert!(0 <= state.kp && state.kp <= 80);
    // The RAW stream has not moved.
    assert_eq!(state.raw_shift(8), 0xFF);
}

#[test]
fn empty_srl_stream_gives_zeros() {
    let mut state = UpgradeState::new(&[], &[0xA5]);
    for num_bits in 1..=31 {
        for _ in 0..200 {
            assert_eq!(state.srl_read(num_bits), 0);
            assert!(0 <= state.kp && state.kp <= 80);
        }
        state.raw_shift(1);
    }
}

#[test]
fn raw_values_have_up_to_31_bits() {
    let raw = [0xFF, 0xFF, 0xFF, 0xFD, 0x80];
    let mut state = UpgradeState::new(&[], &raw);
    assert_eq!(state.raw_shift(31), 0x7FFF_FFFE);
    assert_eq!(state.raw_shift(2), 3);
    assert_eq!(state.raw_shift(31), 0);
}

#[test]
fn reads_can_be_split() {
    let mut parts = BitStream::new(&[0xB4]);
    assert_eq!(parts.read_bits(3), 5);
    assert_eq!(parts.read_bits(5), 20);
    // Past the end every bit is zero.
    assert_eq!(parts.read_bits(8), 0);
    assert_eq!(parts.pos, 16);

    let data = [0xB4, 0x1F, 0xE0, 0x55];
    for high in 0..=31u32 {
        for low in 0..=31 - high {
            let mut whole = BitStream::new(&data);
            let mut parts = BitStream::new(&data);
            assert_eq!(whole.read_bits(3), parts.read_bits(3));
            let h = parts.read_bits(high);
            let l = parts.read_bits(low);
            assert_eq!(whole.read_bits(high + low), (h << low) | l);
            assert_eq!(whole.pos, parts.pos);
        }
    }
}

#[test]
fn block_is_refined_from_where_the_streams_stand() {
    // Both streams have been read from already. The RAW stream goes on with 10, 01 and 11, the
    // SRL stream with a negative value.
    let mut state = UpgradeState::new(&[0b1001_1110], &[0b1100_1110]);
    assert_eq!(state.raw_shift(1), 1);
    assert_eq!(state.srl_read(1), 1);
    let mut current = vec![100, 100, 100, 100];
    let mut sign = vec![1, -1, 0, 1];
    upgrade_block(&mut state, &mut current, &mut sign, 0, 4, 1, 2, true);
    // Magnitudes are shifted by 1: 2, -1, -1 from the SRL stream, and 3.
    assert_eq!(current, [104, 98, 98, 106]);
    assert_eq!(sign, [1, -1, -1, 1]);
}

#[test]
fn last_band_of_a_block_ignores_signs() {
    let mut state = UpgradeState::new(&[], &[0b1001_1100]);
    let mut current = vec![0, 10, 20, 30];
    let mut sign = vec![1, -1, 0, 5];
    upgrade_block(&mut state, &mut current, &mut sign, 1, 4, 0, 2, false);
    assert_eq!(current, [0, 12, 21, 33]);
    assert_eq!(sign, [1, -1, 0, 5]);
}

#[test]
fn block_without_new_bits_is_left_alone() {
    let mut state = UpgradeState::new(&[0xFF], &[0xFF]);
    let mut current = vec![1, 2, 3];
    let mut sign = vec![1, -1, 0];
    for shift in [-1, 0, 30, 1000] {
        for num_bits in [0, -5] {
            upgrade_block(&mut state, &mut current, &mut sign, 0, 3, shift, num_bits, true);
        }
    }
    assert_eq!(current, [1, 2, 3]);
    assert_eq!(sign, [1, -1, 0]);
    assert_eq!((state.srl.pos, state.raw.pos), (0, 0));
}

#[test]
fn highest_bits_are_shifted_out() {
    let mut state = UpgradeState::new(&[], &[0x80]);
    let mut current = vec![5];
    let mut sign = vec![1];
    upgrade_block(&mut state, &mut current, &mut sign, 0, 1, 29, 1, true);
    assert_eq!(current, [5]);
    let mut state = UpgradeState::new(&[], &[0x80]);
    upgrade_block(&mut state, &mut current, &mut sign, 0, 1, 15, 1, true);
    assert_eq!(current, [i16::MIN + 5]);
}

#[test]
fn srl_stream_can_be_read_to_the_end_of_its_counter() {
    let mut state = UpgradeState::new(&[], &[]);
    state.srl.pos = u64::MAX - 1;
    // A run of two zeros takes the last bit.
    assert_eq!(state.srl_read(31), 0);
    assert_eq!(state.srl.pos, u64::MAX);
    assert_eq!(state.srl_read(31), 0);
    assert_eq!(state.srl.pos, u64::MAX);
}
