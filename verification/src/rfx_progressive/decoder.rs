//! The decoder of a surface.

use crate::rfx_progressive::blit;
use crate::rfx_progressive::blit::{blit_tile, tile_is_black};
use crate::rfx_progressive::layout::{TILE_RGBA, TILE_SIZE};
use crate::rfx_progressive::stream;
use crate::rfx_progressive::stream::{
    ProgressiveBlock, ProgressiveRegion, ProgressiveTile, RfxRectangle, TileFirst, TileSimple,
    TileUpgrade,
};
use crate::rfx_progressive::tile;
use crate::rfx_progressive::tile::{
    full_quality, prog_quant_set, quant_set, Planes, Three, Tile, TilePlanes, TileState,
};
use crate::rfx_progressive::update::{ProgressiveError, ProgressiveUpdate, Summary};
use crate::text;
use crate::text::decimal_text;
use vstd::prelude::*;
use vstd::string::*;

verus! {

/// The coefficients of a tile are a difference from the ones before.
pub const RFX_TILE_DIFFERENCE: u8 = 0x01;

/// How many tiles it takes to cover `n` pixels.
pub open spec fn grid(n: u16) -> int {
    (n + TILE_SIZE - 1) / TILE_SIZE as int
}

/// A surface and what is remembered of its tiles, row by row.
#[verifier::ext_equal]
pub struct Surface {
    pub width: u16,
    pub height: u16,
    pub tiles: Seq<Option<Tile>>,
}

impl Surface {
    /// A surface that nothing has been decoded of.
    pub open spec fn fresh(width: u16, height: u16) -> Surface {
        Surface {
            width,
            height,
            tiles: Seq::new((grid(width) * grid(height)) as nat, |i: int| None::<Tile>),
        }
    }

    /// There is a place for every tile of the grid, and what is remembered is in order.
    pub open spec fn wf(self) -> bool {
        &&& self.tiles.len() == grid(self.width) * grid(self.height)
        &&& forall|i: int|
            0 <= i < self.tiles.len() ==> (#[trigger] self.tiles[i] matches Some(t) ==> t.wf())
    }

    /// The place of a tile.
    pub open spec fn slot(self, tile: ProgressiveTile) -> int {
        tile.row() * grid(self.width) + tile.column()
    }

    /// The tile lies in the grid.
    pub open spec fn holds(self, tile: ProgressiveTile) -> bool {
        tile.column() < grid(self.width) && tile.row() < grid(self.height)
    }

    /// The surface with another tile in a place.
    pub open spec fn with(self, slot: int, t: Tile) -> Surface {
        Surface { tiles: self.tiles.update(slot, Some(t)), ..self }
    }
}

/// The message for a tile outside the grid.
pub open spec fn outside_grid(s: Surface, tile: ProgressiveTile) -> Seq<char> {
    "index ("@ + text::decimal(tile.column() as nat) + ","@ + text::decimal(tile.row() as nat)
        + ") outside grid "@ + text::decimal(grid(s.width) as nat) + "x"@ + text::decimal(
        grid(s.height) as nat,
    )
}

/// The count of difference tiles after a tile with the given flags.
pub open spec fn count_difference(u: Summary, flags: u8) -> Summary {
    if flags & RFX_TILE_DIFFERENCE != 0 {
        Summary { coeff_diff_tiles: u.coeff_diff_tiles + 1, ..u }
    } else {
        u
    }
}

/// A tile that comes in one pass: the surface and the summary after it, and the coefficients to
/// show or the reason why there are none.
pub open spec fn decode_simple(
    s: Surface,
    region: ProgressiveRegion,
    slot: int,
    t: TileSimple,
    u: Summary,
) -> (Surface, Summary, Result<Planes, Seq<char>>) {
    let counted = count_difference(u, t.flags);
    match tile::quants(region, t.quant_idx_y, t.quant_idx_cb, t.quant_idx_cr) {
        Err(message) => (s, counted, Err(message)),
        Ok(quant) => {
            let (after, end) = tile::tile_first(
                s.tiles[slot],
                quant,
                Three {
                    y: tile::prog_quant_full(),
                    cb: tile::prog_quant_full(),
                    cr: tile::prog_quant_full(),
                },
                t.y_data,
                t.cb_data,
                t.cr_data,
                t.flags & RFX_TILE_DIFFERENCE != 0,
                region.reduce_extrapolate,
            );
            let done = if end is Ok {
                Summary { tiles_simple: counted.tiles_simple + 1, ..counted }
            } else {
                counted
            };
            (s.with(slot, after), done, end)
        },
    }
}

/// The first pass of a tile, in the same way.
pub open spec fn decode_first(
    s: Surface,
    region: ProgressiveRegion,
    slot: int,
    t: TileFirst,
    u: Summary,
) -> (Surface, Summary, Result<Planes, Seq<char>>) {
    let counted = count_difference(u, t.flags);
    match tile::quants(region, t.quant_idx_y, t.quant_idx_cb, t.quant_idx_cr) {
        Err(message) => (s, counted, Err(message)),
        Ok(quant) => match tile::prog_quants(region, t.quality) {
            Err(message) => (s, counted, Err(message)),
            Ok(prog) => {
                let (after, end) = tile::tile_first(
                    s.tiles[slot],
                    quant,
                    prog,
                    t.y_data,
                    t.cb_data,
                    t.cr_data,
                    t.flags & RFX_TILE_DIFFERENCE != 0,
                    region.reduce_extrapolate,
                );
                let done = if end is Ok {
                    Summary { tiles_first: counted.tiles_first + 1, ..counted }
                } else {
                    counted
                };
                (s.with(slot, after), done, end)
            },
        },
    }
}

/// A later pass of a tile, in the same way. There must have been a first one.
pub open spec fn decode_upgrade(
    s: Surface,
    region: ProgressiveRegion,
    slot: int,
    t: TileUpgrade,
    u: Summary,
) -> (Surface, Summary, Result<Planes, Seq<char>>) {
    match tile::quants(region, t.quant_idx_y, t.quant_idx_cb, t.quant_idx_cr) {
        Err(message) => (s, u, Err(message)),
        Ok(quant) => match tile::prog_quants(region, t.quality) {
            Err(message) => (s, u, Err(message)),
            Ok(prog) => match s.tiles[slot] {
                None => (s, u, Err("upgrade before first pass"@)),
                Some(before) => {
                    let after = tile::tile_upgrade(before, quant, prog, t);
                    (
                        s.with(slot, after),
                        Summary { tiles_upgrade: u.tiles_upgrade + 1, ..u },
                        Ok(tile::planes_of(after)),
                    )
                },
            },
        },
    }
}

/// One tile: the surface and the summary after it, and the coefficients to show or the reason why
/// there are none.
pub open spec fn decode_tile(
    s: Surface,
    region: ProgressiveRegion,
    t: ProgressiveTile,
    u: Summary,
) -> (Surface, Summary, Result<Planes, Seq<char>>) {
    if !s.holds(t) {
        (s, u, Err(outside_grid(s, t)))
    } else {
        match t {
            ProgressiveTile::Simple(t1) => decode_simple(s, region, s.slot(t), t1, u),
            ProgressiveTile::First(t1) => decode_first(s, region, s.slot(t), t1, u),
            ProgressiveTile::Upgrade(t1) => decode_upgrade(s, region, s.slot(t), t1, u),
        }
    }
}

/// A tile that has coefficients to show.
#[verifier::ext_equal]
pub struct Shown {
    pub x_idx: u16,
    pub y_idx: u16,
    /// Which block of the stream the tile's region is.
    pub block: int,
    pub extrapolate: bool,
    pub planes: Planes,
}

/// The summary after a tile that could not be decoded.
pub open spec fn count_error(u: Summary, t: ProgressiveTile, message: Seq<char>) -> Summary {
    Summary {
        errors: u.errors + 1,
        first_error: if u.first_error is None {
            Some(
                "tile ("@ + text::decimal(t.column() as nat) + ","@ + text::decimal(t.row() as nat)
                    + "): "@ + message,
            )
        } else {
            u.first_error
        },
        ..u
    }
}

/// What a stream has led to so far: the surface, the summary, and the tiles to show.
#[verifier::ext_equal]
pub struct Progress {
    pub surface: Surface,
    pub summary: Summary,
    pub shown: Seq<Shown>,
}

/// The progress after one more tile of a region.
pub open spec fn tile_step(
    p: Progress,
    region: ProgressiveRegion,
    block: int,
    t: ProgressiveTile,
) -> Progress {
    let (surface, summary, end) = decode_tile(p.surface, region, t, p.summary);
    match end {
        Ok(planes) => Progress {
            surface,
            summary,
            shown: p.shown.push(
                Shown {
                    x_idx: t.column(),
                    y_idx: t.row(),
                    block,
                    extrapolate: region.reduce_extrapolate,
                    planes,
                },
            ),
        },
        Err(message) => Progress {
            surface,
            summary: count_error(summary, t, message),
            shown: p.shown,
        },
    }
}

/// The progress after the tiles of a region from `i` on.
pub open spec fn tiles_from(p: Progress, region: ProgressiveRegion, block: int, i: int) -> Progress
    decreases region.tiles@.len() - i,
{
    if i >= region.tiles@.len() {
        p
    } else {
        tiles_from(tile_step(p, region, block, region.tiles@[i]), region, block, i + 1)
    }
}

/// The summary at the start of a region.
pub open spec fn enter_region(u: Summary, region: ProgressiveRegion) -> Summary {
    Summary {
        extrapolate: region.reduce_extrapolate,
        region0_rects: if u.regions == 0 {
            region.rects@.len() as int % 0x1_0000_0000
        } else {
            u.region0_rects
        },
        regions: u.regions + 1,
        ..u
    }
}

/// The progress after a region.
pub open spec fn region_step(p: Progress, region: ProgressiveRegion, block: int) -> Progress {
    tiles_from(Progress { summary: enter_region(p.summary, region), ..p }, region, block, 0)
}

/// The progress after the blocks from `k` on.
pub open spec fn blocks_from(p: Progress, blocks: Seq<ProgressiveBlock>, k: int) -> Progress
    decreases blocks.len() - k,
{
    if k >= blocks.len() {
        p
    } else {
        match blocks[k] {
            ProgressiveBlock::Region(region) => blocks_from(
                region_step(p, region, k),
                blocks,
                k + 1,
            ),
            _ => blocks_from(p, blocks, k + 1),
        }
    }
}

/// What decoding a stream leads to.
pub open spec fn progressive_decode(s: Surface, blocks: Seq<ProgressiveBlock>) -> Progress {
    blocks_from(Progress { surface: s, summary: Summary::empty(), shown: Seq::empty() }, blocks, 0)
}

/// How many regions there are among the blocks before `k`.
pub open spec fn regions_before(blocks: Seq<ProgressiveBlock>, k: int) -> int
    decreases k,
{
    if k <= 0 {
        0
    } else if blocks[k - 1] is Region {
        regions_before(blocks, k - 1) + 1
    } else {
        regions_before(blocks, k - 1)
    }
}

/// How many tiles the blocks before `k` have.
pub open spec fn tiles_before(blocks: Seq<ProgressiveBlock>, k: int) -> int
    decreases k,
{
    if k <= 0 {
        0
    } else {
        tiles_before(blocks, k - 1) + match blocks[k - 1] {
            ProgressiveBlock::Region(region) => region.tiles@.len() as int,
            _ => 0,
        }
    }
}

/// The regions of a stream, and its tiles, can be counted in 32 bits each.
pub open spec fn countable(blocks: Seq<ProgressiveBlock>) -> bool {
    &&& regions_before(blocks, blocks.len() as int) <= u32::MAX
    &&& tiles_before(blocks, blocks.len() as int) <= u32::MAX
}

/// Every region is in order.
pub open spec fn blocks_wf(blocks: Seq<ProgressiveBlock>) -> bool {
    forall|k: int|
        0 <= k < blocks.len() ==> (#[trigger] blocks[k] matches ProgressiveBlock::Region(region)
            ==> region.wf())
}

/// The tiles to show belong to regions among the first blocks.
pub open spec fn shown_wf(shown: Seq<Shown>, blocks: Seq<ProgressiveBlock>) -> bool {
    forall|i: int|
        0 <= i < shown.len() ==> {
            let t = #[trigger] shown[i];
            0 <= t.block < blocks.len() && blocks[t.block] is Region
        }
}

/// A tile whose coefficients are to be transformed, converted to RGBA and painted.
#[derive(Debug)]
pub struct DecodedTile {
    pub x_idx: u16,
    pub y_idx: u16,
    /// Which block of the stream the tile's region is.
    pub block: usize,
    /// The transform to undo is the reduced-extrapolate one.
    pub extrapolate: bool,
    pub planes: TilePlanes,
}

impl View for DecodedTile {
    type V = Shown;

    open spec fn view(&self) -> Shown {
        Shown {
            x_idx: self.x_idx,
            y_idx: self.y_idx,
            block: self.block as int,
            extrapolate: self.extrapolate,
            planes: self.planes@,
        }
    }
}

/// The tiles as values.
pub open spec fn shown_tiles(tiles: Seq<DecodedTile>) -> Seq<Shown> {
    tiles.map_values(|t: DecodedTile| t@)
}

/// The rectangles that a block's tiles are clipped to.
pub open spec fn rects_of(block: ProgressiveBlock) -> Seq<RfxRectangle> {
    match block {
        ProgressiveBlock::Region(region) => region.rects@,
        _ => Seq::empty(),
    }
}

/// The framebuffer and the summary after a tile has been painted. It is noted when a tile looks
/// black.
pub open spec fn paint_step(
    s: Surface,
    rects: Seq<RfxRectangle>,
    x_idx: u16,
    y_idx: u16,
    rgba: Seq<u8>,
    stride: int,
    dst: Seq<u8>,
    u: Summary,
) -> (Seq<u8>, Summary) {
    let (painted, dirty) = blit::blit(
        dst,
        u.dirty,
        stride,
        rgba,
        s.width as int,
        s.height as int,
        x_idx * TILE_SIZE,
        y_idx * TILE_SIZE,
        rects,
        0,
    );
    if blit::looks_black(rgba) {
        (
            painted,
            Summary {
                dirty,
                black_tiles: u.black_tiles + 1,
                first_black: if u.first_black is None {
                    Some((x_idx, y_idx))
                } else {
                    u.first_black
                },
                ..u
            },
        )
    } else {
        (painted, Summary { dirty, ..u })
    }
}

/// The framebuffer and the summary after the tiles from `i` on have been painted.
pub open spec fn paint_from(
    s: Surface,
    blocks: Seq<ProgressiveBlock>,
    shown: Seq<Shown>,
    pixels: Seq<Vec<u8>>,
    stride: int,
    dst: Seq<u8>,
    u: Summary,
    i: int,
) -> (Seq<u8>, Summary)
    decreases shown.len() - i,
{
    if i >= shown.len() {
        (dst, u)
    } else {
        let t = shown[i];
        let (painted, next) = paint_step(
            s,
            rects_of(blocks[t.block]),
            t.x_idx,
            t.y_idx,
            pixels[i]@,
            stride,
            dst,
            u,
        );
        paint_from(s, blocks, shown, pixels, stride, painted, next, i + 1)
    }
}

/// A decoded stream: the summary so far, and the tiles that are to be painted.
#[derive(Debug)]
pub struct DecodedStream {
    pub update: ProgressiveUpdate,
    pub tiles: Vec<DecodedTile>,
}

/// What is remembered of tiles, as values.
spec fn tile_values(tiles: Seq<Option<TileState>>) -> Seq<Option<Tile>> {
    tiles.map_values(
        |t: Option<TileState>|
            match t {
                Some(state) => Some(state@),
                None => None,
            },
    )
}

/// Returns how many tiles it takes to cover `n` pixels.
fn grid_size(n: u16) -> (r: usize)
    ensures
        r == grid(n),
        r <= 1024,
{
    (n as usize + TILE_SIZE - 1) / TILE_SIZE
}

/// The decoder of a surface. It remembers every tile from one stream to the next.
pub struct ProgressiveDecoder {
    width: u16,
    height: u16,
    tiles: Vec<Option<TileState>>,
}

impl View for ProgressiveDecoder {
    type V = Surface;

    closed spec fn view(&self) -> Surface {
        Surface { width: self.width, height: self.height, tiles: tile_values(self.tiles@) }
    }
}

impl ProgressiveDecoder {
    /// The decoder's memory fits its surface.
    pub open spec fn wf(&self) -> bool {
        self@.wf()
    }

    /// A decoder for a surface of the given size in pixels.
    pub fn new(width: u16, height: u16) -> (r: Self)
        ensures
            r.wf(),
            r@ == Surface::fresh(width, height),
    {
        let grid_width: usize = grid_size(width);
        let grid_height: usize = grid_size(height);
        assert(0 <= grid_width * grid_height <= 1024 * 1024) by (nonlinear_arith)
            requires
                0 <= grid_width <= 1024,
                0 <= grid_height <= 1024,
        ;
        let count: usize = grid_width * grid_height;
        let mut tiles: Vec<Option<TileState>> = Vec::new();
        while tiles.len() < count
            invariant
                tiles@.len() <= count,
                forall|i: int| 0 <= i < tiles@.len() ==> #[trigger] tiles@[i] is None,
            decreases count - tiles@.len(),
        {
            tiles.push(None);
        }
        let r = ProgressiveDecoder { width, height, tiles };
        assert(r@ =~= Surface::fresh(width, height));
        r
    }

    /// Forgets every tile.
    pub fn reset(&mut self)
        requires
            old(self).wf(),
        ensures
            final(self).wf(),
            final(self)@ == Surface::fresh(old(self)@.width, old(self)@.height),
    {
        let mut i: usize = 0;
        while i < self.tiles.len()
            invariant
                old(self).wf(),
                i <= self.tiles@.len() == old(self).tiles@.len(),
                self.width == old(self).width,
                self.height == old(self).height,
                forall|j: int| 0 <= j < i ==> #[trigger] self.tiles@[j] is None,
            decreases self.tiles@.len() - i,
        {
            self.tiles[i] = None;
            i = i + 1;
        }
        assert(self@ =~= Surface::fresh(old(self)@.width, old(self)@.height));
    }

    /// The width of the surface.
    pub fn width(&self) -> (r: u16)
        ensures
            r == self@.width,
    {
        self.width
    }

    /// The height of the surface.
    pub fn height(&self) -> (r: u16)
        ensures
            r == self@.height,
    {
        self.height
    }

    /// Decodes a parsed stream. What the parser gave is handed in, and so is what the entropy
    /// decoder made of each first pass. Every tile is decoded on its own: one that cannot be
    /// decoded is counted and left out. The tiles that come back are still to be transformed and
    /// painted.
    pub fn decode(&mut self, stream: &Result<Vec<ProgressiveBlock>, String>) -> (res: Result<
        DecodedStream,
        ProgressiveError,
    >)
        requires
            old(self).wf(),
            stream matches Ok(blocks) ==> blocks_wf(blocks@) && countable(blocks@),
        ensures
            final(self).wf(),
            match *stream {
                Err(e) => {
                    &&& final(self)@ == old(self)@
                    &&& res matches Err(error) && error.0@ == "parse stream: "@ + e@
                },
                Ok(blocks) => {
                    let p = progressive_decode(old(self)@, blocks@);
                    &&& final(self)@ == p.surface
                    &&& res matches Ok(d) && d.update@ == p.summary && shown_tiles(d.tiles@)
                        == p.shown && shown_wf(p.shown, blocks@)
                },
            },
    {
        let blocks: &Vec<ProgressiveBlock> = match stream {
            Ok(blocks) => blocks,
            Err(e) => {
                let mut message = String::from_str("parse stream: ");
                message.append(e.as_str());
                return Err(ProgressiveError(message));
            },
        };
        let mut update = ProgressiveUpdate::default();
        let mut tiles: Vec<DecodedTile> = Vec::new();
        let ghost whole = progressive_decode(self@, blocks@);
        assert(shown_tiles(tiles@) =~= Seq::empty());
        let mut k: usize = 0;
        while k < blocks.len()
            invariant
                self.wf(),
                blocks_wf(blocks@),
                countable(blocks@),
                k <= blocks@.len(),
                update@.regions == regions_before(blocks@, k as int),
                update@.at_most(tiles_before(blocks@, k as int)),
                shown_wf(shown_tiles(tiles@), blocks@),
                whole == blocks_from(
                    Progress {
                        surface: self@,
                        summary: update@,
                        shown: shown_tiles(tiles@),
                    },
                    blocks@,
                    k as int,
                ),
            decreases blocks@.len() - k,
        {
            proof {
                lemma_counts_grow(blocks@, k + 1, blocks@.len() as int);
            }
            match &blocks[k] {
                ProgressiveBlock::Region(region) => {
                    assert(region.wf());
                    let ghost before = shown_tiles(tiles@);
                    let ghost done = tiles_before(blocks@, k as int);
                    self.process_region(region, k, &mut update, &mut tiles, Ghost(done));
                    assert(shown_wf(shown_tiles(tiles@), blocks@)) by {
                        assert forall|i: int| 0 <= i < shown_tiles(tiles@).len() implies {
                            let t = #[trigger] shown_tiles(tiles@)[i];
                            0 <= t.block < blocks@.len() && blocks@[t.block] is Region
                        } by {
                            if i < before.len() {
                                assert(shown_tiles(tiles@)[i] == before[i]);
                            }
                        }
                    }
                },
                _ => {},
            }
            k = k + 1;
        }
        Ok(DecodedStream { update, tiles })
    }

    /// Paints the tiles of a stream, each with the pixels that came of its coefficients, into a
    /// framebuffer of `dst_stride` bytes per row. What is painted, and no more, is recorded.
    pub fn paint(
        &self,
        blocks: &Vec<ProgressiveBlock>,
        tiles: &Vec<DecodedTile>,
        pixels: &Vec<Vec<u8>>,
        dst: &mut [u8],
        dst_stride: usize,
        update: &mut ProgressiveUpdate,
    )
        requires
            shown_wf(shown_tiles(tiles@), blocks@),
            pixels@.len() == tiles@.len(),
            forall|i: int| 0 <= i < pixels@.len() ==> (#[trigger] pixels@[i])@.len() == TILE_RGBA,
            old(update)@.black_tiles + tiles@.len() <= u32::MAX,
        ensures
            (final(dst)@, final(update)@) == paint_from(
                self@,
                blocks@,
                shown_tiles(tiles@),
                pixels@,
                dst_stride as int,
                old(dst)@,
                old(update)@,
                0,
            ),
            final(dst)@.len() == old(dst)@.len(),
    {
        let ghost shown = shown_tiles(tiles@);
        let ghost whole = paint_from(
            self@,
            blocks@,
            shown,
            pixels@,
            dst_stride as int,
            dst@,
            update@,
            0,
        );
        let mut i: usize = 0;
        while i < tiles.len()
            invariant
                shown == shown_tiles(tiles@),
                shown_wf(shown, blocks@),
                pixels@.len() == tiles@.len(),
                forall|i: int|
                    0 <= i < pixels@.len() ==> (#[trigger] pixels@[i])@.len() == TILE_RGBA,
                i <= tiles@.len(),
                update@.black_tiles + tiles@.len() - i <= u32::MAX,
                dst@.len() == old(dst)@.len(),
                whole == paint_from(
                    self@,
                    blocks@,
                    shown,
                    pixels@,
                    dst_stride as int,
                    dst@,
                    update@,
                    i as int,
                ),
            decreases tiles@.len() - i,
        {
            let t: &DecodedTile = &tiles[i];
            assert(shown[i as int] == t@);
            let rgba: &[u8] = pixels[i].as_slice();
            let ghost before = (dst@, update@);
            if let ProgressiveBlock::Region(region) = &blocks[t.block] {
                if tile_is_black(rgba) {
                    update.black_tiles = update.black_tiles + 1;
                    if update.first_black.is_none() {
                        update.first_black = Some((t.x_idx, t.y_idx));
                    }
                }
                blit_tile(
                    self.width,
                    self.height,
                    rgba,
                    dst,
                    dst_stride,
                    t.x_idx as usize * TILE_SIZE,
                    t.y_idx as usize * TILE_SIZE,
                    &region.rects,
                    &mut update.dirty,
                );
                assert((dst@, update@) == paint_step(
                    self@,
                    region.rects@,
                    t.x_idx,
                    t.y_idx,
                    rgba@,
                    dst_stride as int,
                    before.0,
                    before.1,
                ));
            }
            i = i + 1;
        }
    }

    /// Decodes the tiles of a region.
    fn process_region(
        &mut self,
        region: &ProgressiveRegion,
        block: usize,
        update: &mut ProgressiveUpdate,
        tiles: &mut Vec<DecodedTile>,
        done: Ghost<int>,
    )
        requires
            old(self).wf(),
            region.wf(),
            old(update)@.regions < u32::MAX,
            old(update)@.at_most(done@),
            done@ + region.tiles@.len() <= u32::MAX,
        ensures
            final(self).wf(),
            final(update)@.regions == old(update)@.regions + 1,
            final(update)@.at_most(done@ + region.tiles@.len()),
            (Progress {
                surface: final(self)@,
                summary: final(update)@,
                shown: shown_tiles(final(tiles)@),
            }) == region_step(
                Progress {
                    surface: old(self)@,
                    summary: old(update)@,
                    shown: shown_tiles(old(tiles)@),
                },
                *region,
                block as int,
            ),
            final(tiles)@.len() >= old(tiles)@.len(),
            forall|i: int|
                0 <= i < old(tiles)@.len() ==> shown_tiles(final(tiles)@)[i] == shown_tiles(
                    old(tiles)@,
                )[i],
            forall|i: int|
                old(tiles)@.len() <= i < final(tiles)@.len() ==> (#[trigger] shown_tiles(
                    final(tiles)@,
                )[i]).block == block,
    {
        let extrapolate: bool = region.uses_reduce_extrapolate();
        update.extrapolate = extrapolate;
        if update.regions == 0 {
            update.region0_rects = (region.rects.len() as u64 % 0x1_0000_0000) as u32;
        }
        update.regions = update.regions + 1;
        assert(update@ =~= enter_region(old(update)@, *region));
        let ghost whole = region_step(
            Progress {
                surface: old(self)@,
                summary: old(update)@,
                shown: shown_tiles(old(tiles)@),
            },
            *region,
            block as int,
        );
        let mut i: usize = 0;
        while i < region.tiles.len()
            invariant
                self.wf(),
                region.wf(),
                extrapolate == region.reduce_extrapolate,
                i <= region.tiles@.len(),
                done@ + region.tiles@.len() <= u32::MAX,
                update@.regions == old(update)@.regions + 1,
                update@.at_most(done@ + i),
                tiles@.len() >= old(tiles)@.len(),
                forall|j: int|
                    0 <= j < old(tiles)@.len() ==> #[trigger] shown_tiles(tiles@)[j] == shown_tiles(
                        old(tiles)@,
                    )[j],
                forall|j: int|
                    old(tiles)@.len() <= j < tiles@.len() ==> (#[trigger] shown_tiles(
                        tiles@,
                    )[j]).block == block,
                whole == tiles_from(
                    Progress {
                        surface: self@,
                        summary: update@,
                        shown: shown_tiles(tiles@),
                    },
                    *region,
                    block as int,
                    i as int,
                ),
            decreases region.tiles@.len() - i,
        {
            let t: &ProgressiveTile = &region.tiles[i];
            assert(t.wf(extrapolate));
            let ghost before = Progress {
                surface: self@,
                summary: update@,
                shown: shown_tiles(tiles@),
            };
            let ghost held = tiles@;
            let ghost n = done@ + i;
            match self.decode_one_tile(region, t, update, Ghost(n)) {
                Ok(planes) => {
                    let shown = DecodedTile {
                        x_idx: t.x_idx(),
                        y_idx: t.y_idx(),
                        block,
                        extrapolate,
                        planes,
                    };
                    tiles.push(shown);
                    assert(shown_tiles(tiles@) =~= shown_tiles(held).push(shown@));
                    assert((Progress {
                        surface: self@,
                        summary: update@,
                        shown: shown_tiles(tiles@),
                    }) =~= tile_step(before, *region, block as int, *t));
                },
                Err(e) => {
                    let ghost so_far = update@;
                    update.errors = update.errors + 1;
                    if update.first_error.is_none() {
                        let x = decimal_text(t.x_idx() as u64);
                        let y = decimal_text(t.y_idx() as u64);
                        let mut message = String::from_str("tile (");
                        message.append(x.as_str());
                        message.append(",");
                        message.append(y.as_str());
                        message.append("): ");
                        message.append(e.as_str());
                        update.first_error = Some(message);
                    }
                    assert(update@ =~= count_error(so_far, *t, e@));
                    assert((Progress {
                        surface: self@,
                        summary: update@,
                        shown: shown_tiles(tiles@),
                    }) =~= tile_step(before, *region, block as int, *t));
                },
            }
            i = i + 1;
        }
    }

    /// Decodes one tile. Returns the coefficients to show.
    fn decode_one_tile(
        &mut self,
        region: &ProgressiveRegion,
        t: &ProgressiveTile,
        update: &mut ProgressiveUpdate,
        done: Ghost<int>,
    ) -> (res: Result<TilePlanes, String>)
        requires
            old(self).wf(),
            region.wf(),
            t.wf(region.reduce_extrapolate),
            old(update)@.at_most(done@),
            done@ < u32::MAX,
        ensures
            final(self).wf(),
            final(update)@.at_most(done@ + 1),
            final(update)@.errors == old(update)@.errors,
            final(update)@.regions == old(update)@.regions,
            ({
                let (s, u, end) = decode_tile(old(self)@, *region, *t, old(update)@);
                &&& final(self)@ == s
                &&& final(update)@ == u
                &&& match end {
                    Ok(planes) => res matches Ok(p) && p@ == planes,
                    Err(message) => res matches Err(e) && e@ == message,
                }
            }),
    {
        let x_idx: usize = t.x_idx() as usize;
        let y_idx: usize = t.y_idx() as usize;
        let grid_width: usize = grid_size(self.width);
        let grid_height: usize = grid_size(self.height);
        if x_idx >= grid_width || y_idx >= grid_height {
            return Err(self.outside_grid_message(t));
        }
        assert(0 <= y_idx * grid_width && y_idx * grid_width + grid_width <= grid_width
            * grid_height <= 1024 * 1024) by (nonlinear_arith)
            requires
                0 <= y_idx < grid_height <= 1024,
                0 <= grid_width <= 1024,
        ;
        let slot: usize = y_idx * grid_width + x_idx;
        match t {
            ProgressiveTile::Simple(t) => self.decode_simple_tile(region, slot, t, update, done),
            ProgressiveTile::First(t) => self.decode_first_tile(region, slot, t, update, done),
            ProgressiveTile::Upgrade(t) => self.decode_upgrade_tile(region, slot, t, update, done),
        }
    }

    /// Decodes a tile that comes in one pass.
    fn decode_simple_tile(
        &mut self,
        region: &ProgressiveRegion,
        slot: usize,
        t: &TileSimple,
        update: &mut ProgressiveUpdate,
        done: Ghost<int>,
    ) -> (res: Result<TilePlanes, String>)
        requires
            old(self).wf(),
            region.wf(),
            slot < old(self)@.tiles.len(),
            stream::data_wf(t.y_data, region.reduce_extrapolate),
            stream::data_wf(t.cb_data, region.reduce_extrapolate),
            stream::data_wf(t.cr_data, region.reduce_extrapolate),
            old(update)@.at_most(done@),
            done@ < u32::MAX,
        ensures
            final(self).wf(),
            final(update)@.at_most(done@ + 1),
            final(update)@.errors == old(update)@.errors,
            final(update)@.regions == old(update)@.regions,
            ({
                let (s, u, end) = decode_simple(
                    old(self)@,
                    *region,
                    slot as int,
                    *t,
                    old(update)@,
                );
                &&& final(self)@ == s
                &&& final(update)@ == u
                &&& match end {
                    Ok(planes) => res matches Ok(p) && p@ == planes,
                    Err(message) => res matches Err(e) && e@ == message,
                }
            }),
    {
        let difference: bool = t.flags & RFX_TILE_DIFFERENCE != 0;
        if difference {
            update.coeff_diff_tiles = update.coeff_diff_tiles + 1;
        }
        assert(update@ =~= count_difference(old(update)@, t.flags));
        let quant = quant_set(region, t.quant_idx_y, t.quant_idx_cb, t.quant_idx_cr)?;
        let prog = full_quality();
        let mut state = self.take_or_new(slot);
        let res = state.decode_tile_first(
            &quant,
            &prog,
            &t.y_data,
            &t.cb_data,
            &t.cr_data,
            difference,
            region.uses_reduce_extrapolate(),
        );
        self.put(slot, state);
        assert(self@ =~= old(self)@.with(slot as int, state@));
        let planes = res?;
        update.tiles_simple = update.tiles_simple + 1;
        Ok(planes)
    }

    /// Decodes the first pass of a tile.
    fn decode_first_tile(
        &mut self,
        region: &ProgressiveRegion,
        slot: usize,
        t: &TileFirst,
        update: &mut ProgressiveUpdate,
        done: Ghost<int>,
    ) -> (res: Result<TilePlanes, String>)
        requires
            old(self).wf(),
            region.wf(),
            slot < old(self)@.tiles.len(),
            stream::data_wf(t.y_data, region.reduce_extrapolate),
            stream::data_wf(t.cb_data, region.reduce_extrapolate),
            stream::data_wf(t.cr_data, region.reduce_extrapolate),
            old(update)@.at_most(done@),
            done@ < u32::MAX,
        ensures
            final(self).wf(),
            final(update)@.at_most(done@ + 1),
            final(update)@.errors == old(update)@.errors,
            final(update)@.regions == old(update)@.regions,
            ({
                let (s, u, end) = decode_first(
                    old(self)@,
                    *region,
                    slot as int,
                    *t,
                    old(update)@,
                );
                &&& final(self)@ == s
                &&& final(update)@ == u
                &&& match end {
                    Ok(planes) => res matches Ok(p) && p@ == planes,
                    Err(message) => res matches Err(e) && e@ == message,
                }
            }),
    {
        let difference: bool = t.flags & RFX_TILE_DIFFERENCE != 0;
        if difference {
            update.coeff_diff_tiles = update.coeff_diff_tiles + 1;
        }
        assert(update@ =~= count_difference(old(update)@, t.flags));
        let quant = quant_set(region, t.quant_idx_y, t.quant_idx_cb, t.quant_idx_cr)?;
        let prog = prog_quant_set(region, t.quality)?;
        let mut state = self.take_or_new(slot);
        let res = state.decode_tile_first(
            &quant,
            &prog,
            &t.y_data,
            &t.cb_data,
            &t.cr_data,
            difference,
            region.uses_reduce_extrapolate(),
        );
        self.put(slot, state);
        assert(self@ =~= old(self)@.with(slot as int, state@));
        let planes = res?;
        update.tiles_first = update.tiles_first + 1;
        Ok(planes)
    }

    /// Decodes a later pass of a tile.
    fn decode_upgrade_tile(
        &mut self,
        region: &ProgressiveRegion,
        slot: usize,
        t: &TileUpgrade,
        update: &mut ProgressiveUpdate,
        done: Ghost<int>,
    ) -> (res: Result<TilePlanes, String>)
        requires
            old(self).wf(),
            region.wf(),
            slot < old(self)@.tiles.len(),
            old(update)@.at_most(done@),
            done@ < u32::MAX,
        ensures
            final(self).wf(),
            final(update)@.at_most(done@ + 1),
            final(update)@.errors == old(update)@.errors,
            final(update)@.regions == old(update)@.regions,
            ({
                let (s, u, end) = decode_upgrade(
                    old(self)@,
                    *region,
                    slot as int,
                    *t,
                    old(update)@,
                );
                &&& final(self)@ == s
                &&& final(update)@ == u
                &&& match end {
                    Ok(planes) => res matches Ok(p) && p@ == planes,
                    Err(message) => res matches Err(e) && e@ == message,
                }
            }),
    {
        let quant = quant_set(region, t.quant_idx_y, t.quant_idx_cb, t.quant_idx_cr)?;
        let prog = prog_quant_set(region, t.quality)?;
        if self.tiles[slot].is_none() {
            return Err(String::from_str("upgrade before first pass"));
        }
        let mut state = self.take_or_new(slot);
        let planes = state.decode_tile_upgrade(&quant, &prog, t);
        self.put(slot, state);
        assert(self@ =~= old(self)@.with(slot as int, state@));
        update.tiles_upgrade = update.tiles_upgrade + 1;
        Ok(planes)
    }

    /// Takes the tile out of its place, or makes a new one.
    fn take_or_new(&mut self, slot: usize) -> (state: TileState)
        requires
            old(self).wf(),
            slot < old(self)@.tiles.len(),
        ensures
            final(self).wf(),
            final(self)@ == (Surface {
                tiles: old(self)@.tiles.update(slot as int, None),
                ..old(self)@
            }),
            state@.wf(),
            state@ == (match old(self)@.tiles[slot as int] {
                Some(t) => t,
                None => Tile::blank(),
            }),
    {
        assert(self@.tiles[slot as int] matches Some(t) ==> t.wf());
        let taken: Option<TileState> = self.tiles[slot].take();
        assert(self@ =~= (Surface {
            tiles: old(self)@.tiles.update(slot as int, None),
            ..old(self)@
        }));
        assert(self.wf()) by {
            assert forall|i: int| 0 <= i < self@.tiles.len() implies (
            #[trigger] self@.tiles[i] matches Some(t) ==> t.wf()) by {
                assert(old(self)@.tiles[i] matches Some(t) ==> t.wf());
            }
        }
        match taken {
            Some(state) => state,
            None => TileState::new(),
        }
    }

    /// Puts a tile into its place.
    fn put(&mut self, slot: usize, state: TileState)
        requires
            old(self).wf(),
            slot < old(self)@.tiles.len(),
            state@.wf(),
        ensures
            final(self).wf(),
            final(self)@ == old(self)@.with(slot as int, state@),
    {
        self.tiles[slot] = Some(state);
        assert(self@ =~= old(self)@.with(slot as int, state@));
        assert(self.wf()) by {
            assert forall|i: int| 0 <= i < self@.tiles.len() implies (
            #[trigger] self@.tiles[i] matches Some(t) ==> t.wf()) by {
                if i != slot {
                    assert(old(self)@.tiles[i] matches Some(t) ==> t.wf());
                }
            }
        }
    }

    /// The message for a tile outside the grid.
    fn outside_grid_message(&self, t: &ProgressiveTile) -> (r: String)
        requires
            self.wf(),
        ensures
            r@ == outside_grid(self@, *t),
    {
        let x = decimal_text(t.x_idx() as u64);
        let y = decimal_text(t.y_idx() as u64);
        let width = decimal_text(grid_size(self.width) as u64);
        let height = decimal_text(grid_size(self.height) as u64);
        let mut message = String::from_str("index (");
        message.append(x.as_str());
        message.append(",");
        message.append(y.as_str());
        message.append(") outside grid ");
        message.append(width.as_str());
        message.append("x");
        message.append(height.as_str());
        message
    }
}

/// More blocks have no fewer regions and tiles.
proof fn lemma_counts_grow(blocks: Seq<ProgressiveBlock>, k: int, n: int)
    requires
        0 <= k <= n,
    ensures
        regions_before(blocks, k) <= regions_before(blocks, n),
        tiles_before(blocks, k) <= tiles_before(blocks, n),
    decreases n - k,
{
    if k < n {
        lemma_counts_grow(blocks, k, n - 1);
    }
}

} // verus!
