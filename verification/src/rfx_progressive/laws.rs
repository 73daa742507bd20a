//! What holds of the decoder as a whole.

use crate::rfx_progressive::blit;
use crate::rfx_progressive::blit::InclusiveRectangle;
use crate::rfx_progressive::component;
use crate::rfx_progressive::component::Component;
use crate::rfx_progressive::decoder;
use crate::rfx_progressive::decoder::{Progress, Surface};
use crate::rfx_progressive::layout::{TILE_PIXELS, TILE_SIZE};
use crate::rfx_progressive::stream::{
    FirstPassData, ProgressiveBlock, ProgressiveRegion, ProgressiveTile, RfxRectangle, TileUpgrade,
};
use crate::rfx_progressive::tile;
use crate::rfx_progressive::tile::{Three, Tile};
use crate::rfx_progressive::update::Summary;
use crate::rfx_progressive::upgrade;
use crate::rfx_progressive::upgrade::{Coefficients, UpgradePosition, UpgradeStreams};
use crate::rfx_progressive::{bits, layout};
use vstd::arithmetic::power2::*;
use vstd::prelude::*;

verus! {

/// Reads past the end of a stream give zero bits.
pub proof fn law_bits_past_the_end_are_zero(s: Seq<u8>, pos: int, n: nat)
    requires
        pos >= 8 * s.len(),
    ensures
        bits::bit(s, pos) == 0,
        bits::bits(s, pos, n) == 0,
    decreases n,
{
    if n > 0 {
        law_bits_past_the_end_are_zero(s, pos, (n - 1) as nat);
        assert(bits::bit(s, pos + n - 1) == 0);
    }
}

/// The state of the SRL code keeps its bounds, its values have no more than the bits asked for and
/// are those of 16 bits, and the RAW stream is left alone. Where the stream is empty and no value
/// has been announced, the value is zero, and none is announced by it.
pub proof fn law_srl_values_keep_their_bounds(srl: Seq<u8>, u: UpgradePosition, num_bits: int)
    requires
        u.wf(),
        num_bits >= 1,
    ensures
        ({
            let (next, value) = upgrade::srl_value(srl, u, num_bits);
            &&& next.wf()
            &&& next.raw == u.raw
            &&& -0x7FFF <= value <= 0x7FFF
            &&& -(pow2(num_bits as nat) - 1) <= value <= pow2(num_bits as nat) - 1
            &&& srl.len() == 0 && !u.mode ==> value == 0 && !next.mode
        }),
{
    let k = (u.kp / 8) as nat;
    lemma2_to64();
    lemma_pow2_pos(k);
    if k < 10 {
        lemma_pow2_strictly_increases(k, 10);
    }
    if num_bits > 1 {
        lemma_pow2_strictly_increases(1, num_bits as nat);
    }
    bits::lemma_bits_bound(srl, u.srl + 1, k);
    let at = if u.mode {
        u.srl
    } else {
        u.srl + 1 + k
    };
    bits::lemma_zeros_bound(srl, at + 1, pow2(num_bits as nat) - 2);
}

/// A read of an upgrade, with its number of bits.
pub enum UpgradeRead {
    Srl(int),
    Raw(int),
}

/// Where an upgrade stands after the given reads.
pub open spec fn position_after(srl: Seq<u8>, reads: Seq<UpgradeRead>) -> UpgradePosition
    decreases reads.len(),
{
    if reads.len() == 0 {
        UpgradePosition::start()
    } else {
        let before = position_after(srl, reads.drop_last());
        match reads.last() {
            UpgradeRead::Srl(num_bits) => upgrade::srl_value(srl, before, num_bits).0,
            UpgradeRead::Raw(num_bits) => UpgradePosition {
                raw: before.raw + num_bits,
                ..before
            },
        }
    }
}

/// However an upgrade has read its streams, the state of the SRL code is within its bounds. Where
/// the SRL stream is empty, no value is ever announced.
pub proof fn law_upgrade_positions_keep_their_bounds(srl: Seq<u8>, reads: Seq<UpgradeRead>)
    requires
        forall|i: int|
            0 <= i < reads.len() ==> match #[trigger] reads[i] {
                UpgradeRead::Srl(num_bits) => num_bits >= 1,
                UpgradeRead::Raw(num_bits) => num_bits >= 0,
            },
    ensures
        position_after(srl, reads).wf(),
        srl.len() == 0 ==> !position_after(srl, reads).mode,
    decreases reads.len(),
{
    if reads.len() > 0 {
        let earlier = reads.drop_last();
        assert forall|i: int| 0 <= i < earlier.len() implies match #[trigger] earlier[i] {
            UpgradeRead::Srl(num_bits) => num_bits >= 1,
            UpgradeRead::Raw(num_bits) => num_bits >= 0,
        } by {
            assert(earlier[i] == reads[i]);
        }
        law_upgrade_positions_keep_their_bounds(srl, earlier);
        if let UpgradeRead::Srl(num_bits) = reads.last() {
            assert(reads[reads.len() - 1] == reads.last());
            law_srl_values_keep_their_bounds(srl, position_after(srl, earlier), num_bits);
        }
    }
}

/// An empty SRL stream gives zeros, whatever has been read before.
pub proof fn law_empty_srl_stream_gives_zeros(reads: Seq<UpgradeRead>, num_bits: int)
    requires
        forall|i: int|
            0 <= i < reads.len() ==> match #[trigger] reads[i] {
                UpgradeRead::Srl(num_bits) => num_bits >= 1,
                UpgradeRead::Raw(num_bits) => num_bits >= 0,
            },
        num_bits >= 1,
    ensures
        upgrade::srl_value(Seq::empty(), position_after(Seq::empty(), reads), num_bits).1 == 0,
{
    law_upgrade_positions_keep_their_bounds(Seq::empty(), reads);
    law_srl_values_keep_their_bounds(
        Seq::empty(),
        position_after(Seq::empty(), reads),
        num_bits,
    );
}

/// An upgrade that goes no deeper than the passes before it leaves the coefficients and signs as
/// they are, whatever its streams hold.
pub proof fn law_upgrade_without_gain_changes_no_coefficient(
    c: Component,
    quant: Seq<i32>,
    prog: Seq<i32>,
    d: UpgradeStreams,
)
    requires
        c.wf(),
        component::quant_wf(quant),
        component::quant_wf(prog),
        forall|b: int|
            0 <= b < 10 ==> #[trigger] component::positions(quant, prog)[b] >= c.bit_pos[b],
    ensures
        component::upgrade_pass(c, quant, prog, d).coefficients == c.coefficients,
        component::upgrade_pass(c, quant, prog, d).bit_pos == component::positions(quant, prog),
{
    lemma_no_gain(
        d,
        UpgradePosition::start(),
        c.coefficients,
        0,
        component::shifts(quant, prog),
        component::gains(c.bit_pos, component::positions(quant, prog)),
    );
}

proof fn lemma_no_gain(
    d: UpgradeStreams,
    u: UpgradePosition,
    c: Coefficients,
    b: int,
    shift: Seq<i32>,
    num_bits: Seq<i32>,
)
    requires
        0 <= b,
        forall|b: int| 0 <= b < 10 ==> #[trigger] num_bits[b] < 1,
    ensures
        upgrade::refine_bands(d, u, c, b, shift, num_bits) == (u, c),
    decreases 10 - b,
{
    if b < 10 {
        assert(num_bits[b] < 1);
        lemma_no_gain(d, u, c, b + 1, shift, num_bits);
    }
}

/// Refining the coefficients of a band leaves those of the other bands alone.
pub proof fn law_refinement_stays_in_its_band(
    d: UpgradeStreams,
    u: UpgradePosition,
    c: Coefficients,
    i: int,
    end: int,
    shift: int,
    num_bits: int,
    use_sign: bool,
    j: int,
)
    requires
        0 <= i,
        end <= c.current.len(),
        end <= c.sign.len(),
        0 <= j < i || end <= j < c.current.len(),
        c.sign.len() == c.current.len(),
    ensures
        ({
            let after = upgrade::refine(d, u, c, i, end, shift, num_bits, use_sign).1;
            after.current[j] == c.current[j] && after.sign[j] == c.sign[j]
        }),
    decreases end - i,
{
    if i < end {
        let (next, input, sign) = upgrade::refinement(d, u, c.sign[i], num_bits, use_sign);
        let refined = Coefficients {
            current: c.current.update(
                i,
                bits::wrap16(c.current[i] + input * pow2(shift as nat)),
            ),
            sign: c.sign.update(i, sign),
        };
        law_refinement_stays_in_its_band(
            d,
            next,
            refined,
            i + 1,
            end,
            shift,
            num_bits,
            use_sign,
            j,
        );
    }
}

proof fn lemma_refine_keeps_sizes(
    d: UpgradeStreams,
    u: UpgradePosition,
    c: Coefficients,
    i: int,
    end: int,
    shift: int,
    num_bits: int,
    use_sign: bool,
)
    requires
        0 <= i,
        end <= c.current.len(),
        end <= c.sign.len(),
    ensures
        ({
            let after = upgrade::refine(d, u, c, i, end, shift, num_bits, use_sign).1;
            after.current.len() == c.current.len() && after.sign.len() == c.sign.len()
        }),
    decreases end - i,
{
    if i < end {
        let (next, input, sign) = upgrade::refinement(d, u, c.sign[i], num_bits, use_sign);
        let refined = Coefficients {
            current: c.current.update(
                i,
                bits::wrap16(c.current[i] + input * pow2(shift as nat)),
            ),
            sign: c.sign.update(i, sign),
        };
        lemma_refine_keeps_sizes(d, next, refined, i + 1, end, shift, num_bits, use_sign);
    }
}

/// A sign that is known never changes: only coefficients that were zero take one.
pub proof fn law_known_signs_stay(
    d: UpgradeStreams,
    u: UpgradePosition,
    c: Coefficients,
    i: int,
    end: int,
    shift: int,
    num_bits: int,
    use_sign: bool,
    j: int,
)
    requires
        0 <= i,
        end <= c.current.len(),
        end <= c.sign.len(),
        0 <= j < c.sign.len(),
        c.sign[j] != 0,
    ensures
        upgrade::refine(d, u, c, i, end, shift, num_bits, use_sign).1.sign[j] == c.sign[j],
    decreases end - i,
{
    if i < end {
        let (next, input, sign) = upgrade::refinement(d, u, c.sign[i], num_bits, use_sign);
        let refined = Coefficients {
            current: c.current.update(
                i,
                bits::wrap16(c.current[i] + input * pow2(shift as nat)),
            ),
            sign: c.sign.update(i, sign),
        };
        law_known_signs_stay(d, next, refined, i + 1, end, shift, num_bits, use_sign, j);
    }
}

/// A first pass that is no difference, and that succeeds, starts a tile over: nothing of what was
/// remembered of it is left.
pub proof fn law_first_pass_starts_over(
    a: Option<Tile>,
    b: Option<Tile>,
    quant: Three<Seq<i32>>,
    prog: Three<Seq<i32>>,
    y_data: FirstPassData,
    cb_data: FirstPassData,
    cr_data: FirstPassData,
    extrapolate: bool,
)
    ensures
        tile::tile_first(
            a,
            quant,
            prog,
            Ok(y_data),
            Ok(cb_data),
            Ok(cr_data),
            false,
            extrapolate,
        ) == tile::tile_first(
            b,
            quant,
            prog,
            Ok(y_data),
            Ok(cb_data),
            Ok(cr_data),
            false,
            extrapolate,
        ),
{
}

/// A difference on a tile that nothing has been decoded of shows what it would show by itself.
pub proof fn law_difference_from_nothing(fresh: Seq<i16>)
    requires
        fresh.len() == TILE_PIXELS,
    ensures
        component::summed(Component::blank().coefficients.current, fresh) == fresh,
{
    assert(component::summed(Component::blank().coefficients.current, fresh) =~= fresh);
}

/// A tile has an effect on its own place in the grid at most. A tile that cannot be decoded does
/// not hurt another.
pub proof fn law_tile_leaves_the_others_alone(
    s: Surface,
    region: ProgressiveRegion,
    t: ProgressiveTile,
    u: Summary,
    slot: int,
)
    requires
        s.wf(),
        0 <= slot < s.tiles.len(),
        slot != s.slot(t) || !s.holds(t),
    ensures
        ({
            let after = decoder::decode_tile(s, region, t, u).0;
            &&& after.tiles[slot] == s.tiles[slot]
            &&& after.tiles.len() == s.tiles.len()
            &&& after.width == s.width
            &&& after.height == s.height
        }),
{
    if s.holds(t) {
        law_tiles_have_their_own_places(s, t, t);
    }
}

/// A tile of the grid has a place of its own.
pub proof fn law_tiles_have_their_own_places(s: Surface, a: ProgressiveTile, b: ProgressiveTile)
    requires
        s.wf(),
        s.holds(a),
        s.holds(b),
    ensures
        0 <= s.slot(a) < s.tiles.len(),
        s.slot(a) == s.slot(b) <==> a.column() == b.column() && a.row() == b.row(),
{
    let w = decoder::grid(s.width);
    let h = decoder::grid(s.height);
    let ya = a.row() as int;
    let yb = b.row() as int;
    assert(0 <= ya * w && ya * w + w <= w * h) by (nonlinear_arith)
        requires
            0 <= ya < h,
            0 <= w,
    ;
    if ya < yb {
        assert(ya * w + w <= yb * w) by (nonlinear_arith)
            requires
                ya < yb,
                0 <= w,
        ;
    } else if yb < ya {
        assert(yb * w + w <= ya * w) by (nonlinear_arith)
            requires
                yb < ya,
                0 <= w,
        ;
    }
}

/// An upgrade of a tile that has had no first pass is refused, and changes nothing.
pub proof fn law_upgrade_needs_a_first_pass(
    s: Surface,
    region: ProgressiveRegion,
    t: TileUpgrade,
    u: Summary,
)
    requires
        s.holds(ProgressiveTile::Upgrade(t)),
        s.tiles[s.slot(ProgressiveTile::Upgrade(t))] is None,
    ensures
        ({
            let (after, summary, end) = decoder::decode_tile(
                s,
                region,
                ProgressiveTile::Upgrade(t),
                u,
            );
            after == s && summary == u && end is Err
        }),
{
}

/// The surface stays in order.
pub proof fn law_tile_keeps_the_surface_in_order(
    s: Surface,
    region: ProgressiveRegion,
    t: ProgressiveTile,
    u: Summary,
)
    requires
        s.wf(),
        region.wf(),
        t.wf(region.reduce_extrapolate),
    ensures
        decoder::decode_tile(s, region, t, u).0.wf(),
{
    let after = decoder::decode_tile(s, region, t, u).0;
    if s.holds(t) {
        let slot = s.slot(t);
        law_tiles_have_their_own_places(s, t, t);
        lemma_tables(region);
        assert(s.tiles[slot] matches Some(before) ==> before.wf());
        assert(after.tiles[slot] matches Some(a) ==> a.wf()) by {
            if let ProgressiveTile::Upgrade(d) = t {
                if let Some(before) = s.tiles[slot] {
                    let quant = tile::quants(
                        region,
                        d.quant_idx_y,
                        d.quant_idx_cb,
                        d.quant_idx_cr,
                    );
                    let prog = tile::prog_quants(region, d.quality);
                    if quant is Ok && prog is Ok {
                        let q = quant->Ok_0;
                        let p = prog->Ok_0;
                        lemma_upgrade_keeps_sizes(
                            before.y,
                            q.y,
                            p.y,
                            UpgradeStreams { srl: d.y_srl_data@, raw: d.y_raw_data@ },
                        );
                        lemma_upgrade_keeps_sizes(
                            before.cb,
                            q.cb,
                            p.cb,
                            UpgradeStreams { srl: d.cb_srl_data@, raw: d.cb_raw_data@ },
                        );
                        lemma_upgrade_keeps_sizes(
                            before.cr,
                            q.cr,
                            p.cr,
                            UpgradeStreams { srl: d.cr_srl_data@, raw: d.cr_raw_data@ },
                        );
                    }
                }
            }
        }
        assert forall|i: int| 0 <= i < after.tiles.len() implies (
        #[trigger] after.tiles[i] matches Some(a) ==> a.wf()) by {
            if i != slot {
                assert(after.tiles[i] == s.tiles[i]);
            }
        }
    }
}

proof fn lemma_tables(region: ProgressiveRegion)
    requires
        region.wf(),
    ensures
        component::quant_wf(tile::prog_quant_full()),
        forall|idx: u8|
            (#[trigger] tile::quant_entry(region, idx)) matches Ok(q) ==> component::quant_wf(q),
        forall|quality: u8|
            (#[trigger] tile::prog_quants(region, quality)) matches Ok(q) ==> component::quant_wf(
                q.y,
            ) && component::quant_wf(q.cb) && component::quant_wf(q.cr),
{
    assert forall|idx: u8|
        (#[trigger] tile::quant_entry(region, idx)) matches Ok(q) ==> component::quant_wf(q) by {
        if idx < region.quant_vals@.len() {
            assert(region.quant_vals@[idx as int].wf());
        }
    }
    assert forall|quality: u8|
        (#[trigger] tile::prog_quants(region, quality)) matches Ok(q) ==> component::quant_wf(q.y)
            && component::quant_wf(q.cb) && component::quant_wf(q.cr) by {
        if quality != 0xFF && quality < region.quant_prog_vals@.len() {
            assert(region.quant_prog_vals@[quality as int].wf());
        }
    }
}

proof fn lemma_upgrade_keeps_sizes(
    c: Component,
    quant: Seq<i32>,
    prog: Seq<i32>,
    d: UpgradeStreams,
)
    requires
        c.wf(),
        component::quant_wf(quant),
        component::quant_wf(prog),
    ensures
        component::upgrade_pass(c, quant, prog, d).wf(),
{
    lemma_refine_bands_keeps_sizes(
        d,
        UpgradePosition::start(),
        c.coefficients,
        0,
        component::shifts(quant, prog),
        component::gains(c.bit_pos, component::positions(quant, prog)),
    );
    assert forall|b: int| 0 <= b < 10 implies 0 <= #[trigger] component::positions(quant, prog)[b]
        <= 30 by {
        assert(0 <= quant[b] <= 15 && 0 <= prog[b] <= 15);
    }
}

proof fn lemma_refine_bands_keeps_sizes(
    d: UpgradeStreams,
    u: UpgradePosition,
    c: Coefficients,
    b: int,
    shift: Seq<i32>,
    num_bits: Seq<i32>,
)
    requires
        0 <= b,
        c.current.len() == TILE_PIXELS,
        c.sign.len() == TILE_PIXELS,
    ensures
        ({
            let after = upgrade::refine_bands(d, u, c, b, shift, num_bits).1;
            after.current.len() == TILE_PIXELS && after.sign.len() == TILE_PIXELS
        }),
    decreases 10 - b,
{
    if b < 10 {
        let (next, refined) = if num_bits[b] < 1 {
            (u, c)
        } else {
            upgrade::refine(
                d,
                u,
                c,
                layout::band_start(true, b),
                layout::band_start(true, b + 1),
                shift[b] as int,
                num_bits[b] as int,
                b < 9,
            )
        };
        if num_bits[b] >= 1 {
            lemma_refine_keeps_sizes(
                d,
                u,
                c,
                layout::band_start(true, b),
                layout::band_start(true, b + 1),
                shift[b] as int,
                num_bits[b] as int,
                b < 9,
            );
        }
        lemma_refine_bands_keeps_sizes(d, next, refined, b + 1, shift, num_bits);
    }
}

/// How many tiles the regions from block `k` on have.
pub open spec fn tile_count(blocks: Seq<ProgressiveBlock>, k: int) -> int
    decreases blocks.len() - k,
{
    if k >= blocks.len() {
        0
    } else {
        tile_count(blocks, k + 1) + match blocks[k] {
            ProgressiveBlock::Region(region) => region.tiles@.len() as int,
            _ => 0,
        }
    }
}

/// How many tiles a summary counts as decoded.
pub open spec fn decoded_count(u: Summary) -> int {
    u.tiles_simple + u.tiles_first + u.tiles_upgrade
}

/// Every tile of a stream is counted once: as one that is shown, by its kind, or as an error.
pub proof fn law_every_tile_is_counted(s: Surface, blocks: Seq<ProgressiveBlock>)
    ensures
        ({
            let p = decoder::progressive_decode(s, blocks);
            &&& decoded_count(p.summary) == p.shown.len()
            &&& p.shown.len() + p.summary.errors == tile_count(blocks, 0)
            &&& p.summary.first_error is Some <==> p.summary.errors > 0
        }),
{
    lemma_blocks_counted(
        Progress { surface: s, summary: Summary::empty(), shown: Seq::empty() },
        blocks,
        0,
    );
}

/// A summary that agrees with the tiles that are shown.
spec fn counted(p: Progress) -> bool {
    &&& decoded_count(p.summary) == p.shown.len()
    &&& p.summary.first_error is Some <==> p.summary.errors > 0
    &&& p.summary.errors >= 0
}

proof fn lemma_blocks_counted(p: Progress, blocks: Seq<ProgressiveBlock>, k: int)
    requires
        counted(p),
        0 <= k,
    ensures
        ({
            let q = decoder::blocks_from(p, blocks, k);
            &&& counted(q)
            &&& q.shown.len() + q.summary.errors == p.shown.len() + p.summary.errors + tile_count(
                blocks,
                k,
            )
        }),
    decreases blocks.len() - k,
{
    if k < blocks.len() {
        match blocks[k] {
            ProgressiveBlock::Region(region) => {
                let entered = Progress {
                    summary: decoder::enter_region(p.summary, region),
                    ..p
                };
                lemma_tiles_counted(entered, region, k, 0);
                lemma_blocks_counted(decoder::region_step(p, region, k), blocks, k + 1);
            },
            _ => {
                lemma_blocks_counted(p, blocks, k + 1);
            },
        }
    }
}

proof fn lemma_tiles_counted(p: Progress, region: ProgressiveRegion, block: int, i: int)
    requires
        counted(p),
        0 <= i <= region.tiles@.len(),
    ensures
        ({
            let q = decoder::tiles_from(p, region, block, i);
            &&& counted(q)
            &&& q.shown.len() + q.summary.errors == p.shown.len() + p.summary.errors
                + region.tiles@.len() - i
        }),
    decreases region.tiles@.len() - i,
{
    if i < region.tiles@.len() {
        lemma_tiles_counted(
            decoder::tile_step(p, region, block, region.tiles@[i]),
            region,
            block,
            i + 1,
        );
    }
}

/// A pixel lies in a rectangle.
pub open spec fn inside(r: InclusiveRectangle, x: int, y: int) -> bool {
    r.left <= x <= r.right && r.top <= y <= r.bottom
}

/// What is shown of a tile through a rectangle is what the tile, the rectangle and the surface
/// have in common.
pub proof fn law_clip_is_the_intersection(
    w: u16,
    h: u16,
    tx: int,
    ty: int,
    r: RfxRectangle,
    x: int,
    y: int,
)
    requires
        0 <= tx,
        0 <= ty,
    ensures
        (blit::clip(w as int, h as int, tx, ty, r) matches Some(c) && inside(c, x, y)) <==> {
            &&& tx <= x < tx + TILE_SIZE && ty <= y < ty + TILE_SIZE
            &&& r.x <= x < r.x + r.width && r.y <= y < r.y + r.height
            &&& x < w && y < h
        },
        blit::clip(w as int, h as int, tx, ty, r) matches Some(c) ==> inside(
            c,
            c.left as int,
            c.top as int,
        ),
{
}

/// The rectangles that painting a tile records, from rectangle `i` of its region on: what each of
/// them shows of the tile.
pub open spec fn clips(w: int, h: int, tx: int, ty: int, rects: Seq<RfxRectangle>, i: int) -> Seq<
    InclusiveRectangle,
>
    decreases rects.len() - i,
{
    if i >= rects.len() {
        Seq::empty()
    } else {
        match blit::clip(w, h, tx, ty, rects[i]) {
            None => clips(w, h, tx, ty, rects, i + 1),
            Some(r) => seq![r] + clips(w, h, tx, ty, rects, i + 1),
        }
    }
}

/// Painting a tile records the rectangles that it has painted, in the order of its region's
/// rectangles, behind those that were recorded before.
pub proof fn law_painted_rectangles_are_recorded(
    dst: Seq<u8>,
    dirty: Seq<InclusiveRectangle>,
    stride: int,
    rgba: Seq<u8>,
    w: int,
    h: int,
    tx: int,
    ty: int,
    rects: Seq<RfxRectangle>,
    i: int,
)
    requires
        0 <= i,
    ensures
        blit::blit(dst, dirty, stride, rgba, w, h, tx, ty, rects, i).1 == dirty + clips(
            w,
            h,
            tx,
            ty,
            rects,
            i,
        ),
    decreases rects.len() - i,
{
    if i >= rects.len() {
        assert(dirty + clips(w, h, tx, ty, rects, i) =~= dirty);
    } else {
        match blit::clip(w, h, tx, ty, rects[i]) {
            None => {
                law_painted_rectangles_are_recorded(
                    dst,
                    dirty,
                    stride,
                    rgba,
                    w,
                    h,
                    tx,
                    ty,
                    rects,
                    i + 1,
                );
            },
            Some(r) => {
                law_painted_rectangles_are_recorded(
                    blit::blit_rows(dst, stride, rgba, tx, ty, r, r.top as int),
                    dirty.push(r),
                    stride,
                    rgba,
                    w,
                    h,
                    tx,
                    ty,
                    rects,
                    i + 1,
                );
                assert(dirty.push(r) + clips(w, h, tx, ty, rects, i + 1) =~= dirty + (seq![r]
                    + clips(w, h, tx, ty, rects, i + 1)));
            },
        }
    }
}

/// One of the rectangles from `i` on shows the pixel `(x, y)` of the tile.
pub open spec fn visible(
    w: int,
    h: int,
    tx: int,
    ty: int,
    rects: Seq<RfxRectangle>,
    i: int,
    x: int,
    y: int,
) -> bool {
    exists|j: int|
        i <= j < rects.len() && (blit::clip(w, h, tx, ty, #[trigger] rects[j]) matches Some(c)
            && inside(c, x, y))
}

/// What painting a tile does to a byte of the framebuffer, where rows do not overlap: a pixel that
/// a rectangle shows, and that fits, takes the tile's color, and every other one stays.
pub proof fn law_painting_sets_what_is_visible(
    dst: Seq<u8>,
    dirty: Seq<InclusiveRectangle>,
    stride: int,
    rgba: Seq<u8>,
    w: u16,
    h: u16,
    tx: int,
    ty: int,
    rects: Seq<RfxRectangle>,
    i: int,
    x: int,
    y: int,
    n: int,
)
    requires
        0 <= tx,
        0 <= ty,
        4 * w <= stride,
        0 <= i,
        0 <= x,
        0 <= y,
        0 <= n < 4,
        4 * x + n < stride,
        y * stride + 4 * x + n < dst.len(),
    ensures
        blit::blit(dst, dirty, stride, rgba, w as int, h as int, tx, ty, rects, i).0[y * stride + 4
            * x + n] == if visible(w as int, h as int, tx, ty, rects, i, x, y) && y * stride + 4 * x
            + 4 <= dst.len() {
            rgba[4 * ((y - ty) * TILE_SIZE + (x - tx)) + n]
        } else {
            dst[y * stride + 4 * x + n]
        },
    decreases rects.len() - i,
{
    let seen = visible(w as int, h as int, tx, ty, rects, i, x, y);
    let later = visible(w as int, h as int, tx, ty, rects, i + 1, x, y);
    if i < rects.len() {
        let shown = blit::clip(w as int, h as int, tx, ty, rects[i]);
        let now = shown matches Some(c) && inside(c, x, y);
        assert(seen == (now || later)) by {
            if later {
                let j = choose|j: int|
                    i + 1 <= j < rects.len() && (blit::clip(
                        w as int,
                        h as int,
                        tx,
                        ty,
                        #[trigger] rects[j],
                    ) matches Some(c) && inside(c, x, y));
                assert(i <= j < rects.len());
            }
            if seen && !now {
                let j = choose|j: int|
                    i <= j < rects.len() && (blit::clip(
                        w as int,
                        h as int,
                        tx,
                        ty,
                        #[trigger] rects[j],
                    ) matches Some(c) && inside(c, x, y));
                assert(i + 1 <= j);
            }
        }
        match shown {
            None => {
                law_painting_sets_what_is_visible(
                    dst,
                    dirty,
                    stride,
                    rgba,
                    w,
                    h,
                    tx,
                    ty,
                    rects,
                    i + 1,
                    x,
                    y,
                    n,
                );
            },
            Some(r) => {
                lemma_rows_pixel(dst, stride, rgba, w as int, tx, ty, r, r.top as int, x, y, n);
                law_painting_sets_what_is_visible(
                    blit::blit_rows(dst, stride, rgba, tx, ty, r, r.top as int),
                    dirty.push(r),
                    stride,
                    rgba,
                    w,
                    h,
                    tx,
                    ty,
                    rects,
                    i + 1,
                    x,
                    y,
                    n,
                );
            },
        }
    }
}

proof fn lemma_rows_pixel(
    dst: Seq<u8>,
    stride: int,
    rgba: Seq<u8>,
    w: int,
    tx: int,
    ty: int,
    r: InclusiveRectangle,
    row: int,
    x: int,
    y: int,
    n: int,
)
    requires
        4 * w <= stride,
        r.right < w,
        0 <= row,
        0 <= x,
        0 <= y,
        0 <= n < 4,
        4 * x + n < stride,
        y * stride + 4 * x + n < dst.len(),
    ensures
        blit::blit_rows(dst, stride, rgba, tx, ty, r, row).len() == dst.len(),
        blit::blit_rows(dst, stride, rgba, tx, ty, r, row)[y * stride + 4 * x + n] == if row <= y
            <= r.bottom && r.left <= x <= r.right && y * stride + 4 * x + 4 <= dst.len() {
            rgba[4 * ((y - ty) * TILE_SIZE + (x - tx)) + n]
        } else {
            dst[y * stride + 4 * x + n]
        },
    decreases r.bottom + 1 - row,
{
    if row <= r.bottom {
        lemma_row_pixel(
            dst,
            stride,
            rgba,
            w,
            tx,
            ty,
            row,
            r.left as int,
            r.right + 1,
            x,
            y,
            n,
        );
        lemma_rows_pixel(
            blit::blit_row(dst, stride, rgba, tx, ty, row, r.left as int, r.right + 1),
            stride,
            rgba,
            w,
            tx,
            ty,
            r,
            row + 1,
            x,
            y,
            n,
        );
    }
}

proof fn lemma_row_pixel(
    dst: Seq<u8>,
    stride: int,
    rgba: Seq<u8>,
    w: int,
    tx: int,
    ty: int,
    row: int,
    left: int,
    end: int,
    x: int,
    y: int,
    n: int,
)
    requires
        4 * w <= stride,
        0 <= left,
        end <= w,
        0 <= row,
        0 <= x,
        0 <= y,
        0 <= n < 4,
        4 * x + n < stride,
        y * stride + 4 * x + n < dst.len(),
    ensures
        blit::blit_row(dst, stride, rgba, tx, ty, row, left, end).len() == dst.len(),
        blit::blit_row(dst, stride, rgba, tx, ty, row, left, end)[y * stride + 4 * x + n] == if row
            == y && left <= x < end && y * stride + 4 * x + 4 <= dst.len() {
            rgba[4 * ((y - ty) * TILE_SIZE + (x - tx)) + n]
        } else {
            dst[y * stride + 4 * x + n]
        },
    decreases end - left,
{
    if left < end {
        let at = row * stride + 4 * left;
        let from = 4 * ((row - ty) * TILE_SIZE + (left - tx));
        if row < y {
            assert(row * stride + stride <= y * stride) by (nonlinear_arith)
                requires
                    row < y,
                    0 <= stride,
            ;
        } else if y < row {
            assert(y * stride + stride <= row * stride) by (nonlinear_arith)
                requires
                    y < row,
                    0 <= stride,
            ;
        }
        assert(0 <= y * stride) by (nonlinear_arith)
            requires
                0 <= y,
                0 <= stride,
        ;
        lemma_row_pixel(
            blit::set_rgba(dst, at, rgba, from),
            stride,
            rgba,
            w,
            tx,
            ty,
            row,
            left + 1,
            end,
            x,
            y,
            n,
        );
    }
}

/// Full quality needs no table: it is the same in every region.
pub proof fn law_full_quality_is_always_there(a: ProgressiveRegion, b: ProgressiveRegion)
    ensures
        tile::prog_quants(a, 0xFF) is Ok,
        tile::prog_quants(a, 0xFF) == tile::prog_quants(b, 0xFF),
{
}

/// What was counted before has no influence on what blocks do to a surface and on what they show.
pub proof fn law_counts_have_no_influence(
    p: Progress,
    q: Progress,
    blocks: Seq<ProgressiveBlock>,
    k: int,
)
    requires
        p.surface == q.surface,
        p.shown == q.shown,
    ensures
        ({
            let a = decoder::blocks_from(p, blocks, k);
            let b = decoder::blocks_from(q, blocks, k);
            a.surface == b.surface && a.shown == b.shown
        }),
    decreases blocks.len() - k,
{
    if k < blocks.len() {
        match blocks[k] {
            ProgressiveBlock::Region(region) => {
                lemma_tiles_ignore_counts(
                    Progress { summary: decoder::enter_region(p.summary, region), ..p },
                    Progress { summary: decoder::enter_region(q.summary, region), ..q },
                    region,
                    k,
                    0,
                );
                law_counts_have_no_influence(
                    decoder::region_step(p, region, k),
                    decoder::region_step(q, region, k),
                    blocks,
                    k + 1,
                );
            },
            _ => {
                law_counts_have_no_influence(p, q, blocks, k + 1);
            },
        }
    }
}

proof fn lemma_tiles_ignore_counts(
    p: Progress,
    q: Progress,
    region: ProgressiveRegion,
    block: int,
    i: int,
)
    requires
        p.surface == q.surface,
        p.shown == q.shown,
    ensures
        ({
            let a = decoder::tiles_from(p, region, block, i);
            let b = decoder::tiles_from(q, region, block, i);
            a.surface == b.surface && a.shown == b.shown
        }),
    decreases region.tiles@.len() - i,
{
    if i < region.tiles@.len() {
        let t = region.tiles@[i];
        lemma_tiles_ignore_counts(
            decoder::tile_step(p, region, block, t),
            decoder::tile_step(q, region, block, t),
            region,
            block,
            i + 1,
        );
    }
}

/// A tile that is refused before anything is decoded of it might as well be missing: the tiles
/// behind it are decoded and shown as if it were not there.
pub proof fn law_refused_tile_might_be_missing(
    p: Progress,
    region: ProgressiveRegion,
    block: int,
    i: int,
)
    requires
        0 <= i < region.tiles@.len(),
        decoder::decode_tile(p.surface, region, region.tiles@[i], p.summary).2 is Err,
        decoder::decode_tile(p.surface, region, region.tiles@[i], p.summary).0 == p.surface,
    ensures
        ({
            let a = decoder::tiles_from(p, region, block, i);
            let b = decoder::tiles_from(p, region, block, i + 1);
            a.surface == b.surface && a.shown == b.shown
        }),
{
    lemma_tiles_ignore_counts(
        decoder::tile_step(p, region, block, region.tiles@[i]),
        p,
        region,
        block,
        i + 1,
    );
}

} // verus!
