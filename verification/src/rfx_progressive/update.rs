//! What a stream did, for the caller to act on and to log.

use crate::rfx_progressive::blit::InclusiveRectangle;
use vstd::prelude::*;
use vstd::string::*;

verus! {

/// Why a stream could not be decoded.
#[derive(Debug)]
pub struct ProgressiveError(pub String);

impl ProgressiveError {
    /// The error as a message.
    pub fn message(&self) -> (r: String)
        ensures
            r@ == "rfx-progressive: "@ + self.0@,
    {
        let mut r = String::from_str("rfx-progressive: ");
        r.append(self.0.as_str());
        r
    }
}

/// A summary of one stream.
#[verifier::ext_equal]
pub struct Summary {
    pub dirty: Seq<InclusiveRectangle>,
    pub tiles_simple: int,
    pub tiles_first: int,
    pub tiles_upgrade: int,
    pub regions: int,
    pub region0_rects: int,
    pub extrapolate: bool,
    pub coeff_diff_tiles: int,
    pub errors: int,
    pub first_error: Option<Seq<char>>,
    pub black_tiles: int,
    pub first_black: Option<(u16, u16)>,
}

impl Summary {
    /// The summary of a stream that nothing has been decoded of.
    pub open spec fn empty() -> Summary {
        Summary {
            dirty: Seq::empty(),
            tiles_simple: 0,
            tiles_first: 0,
            tiles_upgrade: 0,
            regions: 0,
            region0_rects: 0,
            extrapolate: false,
            coeff_diff_tiles: 0,
            errors: 0,
            first_error: None,
            black_tiles: 0,
            first_black: None,
        }
    }

    /// None of the counts of tiles that decoding increases is above `n`.
    pub open spec fn at_most(self, n: int) -> bool {
        &&& self.tiles_simple <= n
        &&& self.tiles_first <= n
        &&& self.tiles_upgrade <= n
        &&& self.coeff_diff_tiles <= n
        &&& self.errors <= n
    }
}

/// A summary of one stream.
#[derive(Clone, Debug)]
pub struct ProgressiveUpdate {
    /// What has been painted, relative to the origin of the surface.
    pub dirty: Vec<InclusiveRectangle>,
    pub tiles_simple: u32,
    pub tiles_first: u32,
    pub tiles_upgrade: u32,
    /// The number of regions, and the number of rectangles of the first.
    pub regions: u32,
    pub region0_rects: u32,
    /// The last region used the reduced-extrapolate transform.
    pub extrapolate: bool,
    /// How many tiles came as a difference from what was there.
    pub coeff_diff_tiles: u32,
    /// How many tiles were left out because they could not be decoded.
    pub errors: u32,
    /// Why the first of them could not.
    pub first_error: Option<String>,
    /// How many tiles look black.
    pub black_tiles: u32,
    /// The place in the grid of the first of them.
    pub first_black: Option<(u16, u16)>,
}

impl View for ProgressiveUpdate {
    type V = Summary;

    open spec fn view(&self) -> Summary {
        Summary {
            dirty: self.dirty@,
            tiles_simple: self.tiles_simple as int,
            tiles_first: self.tiles_first as int,
            tiles_upgrade: self.tiles_upgrade as int,
            regions: self.regions as int,
            region0_rects: self.region0_rects as int,
            extrapolate: self.extrapolate,
            coeff_diff_tiles: self.coeff_diff_tiles as int,
            errors: self.errors as int,
            first_error: match self.first_error {
                Some(message) => Some(message@),
                None => None,
            },
            black_tiles: self.black_tiles as int,
            first_black: self.first_black,
        }
    }
}

impl Default for ProgressiveUpdate {
    fn default() -> (r: Self)
        ensures
            r@ == Summary::empty(),
    {
        let r = ProgressiveUpdate {
            dirty: Vec::new(),
            tiles_simple: 0,
            tiles_first: 0,
            tiles_upgrade: 0,
            regions: 0,
            region0_rects: 0,
            extrapolate: false,
            coeff_diff_tiles: 0,
            errors: 0,
            first_error: None,
            black_tiles: 0,
            first_black: None,
        };
        assert(r@ =~= Summary::empty());
        r
    }
}

} // verus!
