//! Where the sub-bands of a tile lie.
//!
//! A component of a tile has 4096 coefficients. They are kept band by band, in the order HL1, LH1,
//! HH1, HL2, LH2, HH2, HL3, LH3, HH3, LL3. The reduced-extrapolate transform has bands of other
//! sizes than the plain one.

use vstd::prelude::*;

verus! {

/// The side of a tile in pixels.
pub const TILE_SIZE: usize = 64;

/// The pixels of a tile, and the coefficients of a component.
pub const TILE_PIXELS: usize = 4096;

/// The bytes of a tile in RGBA.
pub const TILE_RGBA: usize = 16384;

/// Where band `b` starts. Each band ends where the next one starts, and the last one with the
/// tile.
pub open spec fn band_start(extrapolate: bool, b: int) -> int {
    if b <= 0 {
        0
    } else if b == 1 {
        if extrapolate { 1023 } else { 1024 }
    } else if b == 2 {
        if extrapolate { 2046 } else { 2048 }
    } else if b == 3 {
        if extrapolate { 3007 } else { 3072 }
    } else if b == 4 {
        if extrapolate { 3279 } else { 3328 }
    } else if b == 5 {
        if extrapolate { 3551 } else { 3584 }
    } else if b == 6 {
        if extrapolate { 3807 } else { 3840 }
    } else if b == 7 {
        if extrapolate { 3879 } else { 3904 }
    } else if b == 8 {
        if extrapolate { 3951 } else { 3968 }
    } else if b == 9 {
        if extrapolate { 4015 } else { 4032 }
    } else {
        4096
    }
}

/// The band that coefficient `i` belongs to.
pub open spec fn band_of(extrapolate: bool, i: int) -> int {
    if i < band_start(extrapolate, 1) {
        0
    } else if i < band_start(extrapolate, 2) {
        1
    } else if i < band_start(extrapolate, 3) {
        2
    } else if i < band_start(extrapolate, 4) {
        3
    } else if i < band_start(extrapolate, 5) {
        4
    } else if i < band_start(extrapolate, 6) {
        5
    } else if i < band_start(extrapolate, 7) {
        6
    } else if i < band_start(extrapolate, 8) {
        7
    } else if i < band_start(extrapolate, 9) {
        8
    } else {
        9
    }
}

/// Where band `b` starts.
pub fn band_offset(extrapolate: bool, b: usize) -> (r: usize)
    requires
        b <= 10,
    ensures
        r == band_start(extrapolate, b as int),
        r <= TILE_PIXELS,
{
    match b {
        0 => 0,
        1 => if extrapolate { 1023 } else { 1024 },
        2 => if extrapolate { 2046 } else { 2048 },
        3 => if extrapolate { 3007 } else { 3072 },
        4 => if extrapolate { 3279 } else { 3328 },
        5 => if extrapolate { 3551 } else { 3584 },
        6 => if extrapolate { 3807 } else { 3840 },
        7 => if extrapolate { 3879 } else { 3904 },
        8 => if extrapolate { 3951 } else { 3968 },
        9 => if extrapolate { 4015 } else { 4032 },
        _ => 4096,
    }
}

/// The bands are a partition of the tile: a coefficient lies in band `b` if and only if it lies
/// between the starts of `b` and of the next band.
pub proof fn law_bands_partition_the_tile(extrapolate: bool, i: int, b: int)
    requires
        0 <= i < TILE_PIXELS,
        0 <= b < 10,
    ensures
        band_of(extrapolate, i) == b <==> band_start(extrapolate, b) <= i < band_start(
            extrapolate,
            b + 1,
        ),
        0 <= band_of(extrapolate, i) < 10,
{
}

} // verus!
