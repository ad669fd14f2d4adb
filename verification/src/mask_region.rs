//! Sizing of native mask regions inside the mask atlas.
use vstd::prelude::*;
use crate::int_util::{spec_max, max_u32};
use crate::scaling::{double_scaled_edge, lemma_double_scaled_longest, round_scaled_edge};

verus! {

/// `value` clamped into `[low, high]`.
pub open spec fn spec_clamp(value: int, low: int, high: int) -> int {
    if value < low { low } else if value > high { high } else { value }
}

pub open spec fn spec_mask_region_texture_extent(region: [u32; 4], max_edge: u32) -> (int, int) {
    let width = spec_max(region[2] as int, 1);
    let height = spec_max(region[3] as int, 1);
    let longest = spec_max(width, height);
    if longest <= max_edge {
        (width, height)
    } else {
        let limit = spec_max(max_edge as int, 1);
        (
            spec_clamp(double_scaled_edge(width as nat, limit as nat, longest as nat), 1, limit),
            spec_clamp(double_scaled_edge(height as nat, limit as nat, longest as nat), 1, limit),
        )
    }
}

fn scaled_edge(edge: u32, limit: u32, longest: u32) -> (r: u32)
    requires
        1 <= limit <= longest,
        edge <= longest,
    ensures
        r == spec_clamp(double_scaled_edge(edge as nat, limit as nat, longest as nat), 1, limit as int),
{
    let whole = round_scaled_edge(edge, limit, longest);
    if whole < 1 {
        1
    } else if whole > limit as u128 {
        limit
    } else {
        whole as u32
    }
}

/// Fit a mask region in the atlas while preserving its aspect ratio.
/// Empty regions and a zero edge limit retain a minimum one-pixel extent.
/// A region longer than the atlas edge is scaled by `limit / longest` in
/// double precision, each scaled edge rounded to the nearest pixel (halves
/// away from zero) and clamped to `[1, limit]`, where `limit` is the atlas
/// edge and at least one.
pub fn mask_region_texture_extent(region: [u32; 4], max_edge: u32) -> (r: [u32; 2])
    ensures
        (r[0] as int, r[1] as int) == spec_mask_region_texture_extent(region, max_edge),
{
    let width = max_u32(region[2], 1);
    let height = max_u32(region[3], 1);
    let longest = max_u32(width, height);
    if longest <= max_edge {
        return [width, height];
    }
    let limit = max_u32(max_edge, 1);
    [scaled_edge(width, limit, longest), scaled_edge(height, limit, longest)]
}

/// The fitted extent is never empty; a region that already fits keeps its
/// size, and a larger region is scaled so that its longest edge becomes
/// exactly the atlas edge while neither edge exceeds it.
pub proof fn lemma_texture_extent_fits_atlas(region: [u32; 4], max_edge: u32)
    ensures
        ({
            let (w, h) = spec_mask_region_texture_extent(region, max_edge);
            let width = spec_max(region[2] as int, 1);
            let height = spec_max(region[3] as int, 1);
            &&& 1 <= w && 1 <= h
            &&& spec_max(width, height) <= max_edge ==> w == width && h == height
            &&& spec_max(width, height) > max_edge ==> {
                &&& w <= spec_max(max_edge as int, 1)
                &&& h <= spec_max(max_edge as int, 1)
                &&& spec_max(w, h) == spec_max(max_edge as int, 1)
            }
        }),
{
    let width = spec_max(region[2] as int, 1);
    let height = spec_max(region[3] as int, 1);
    let longest = spec_max(width, height);
    if longest > max_edge {
        let limit = spec_max(max_edge as int, 1);
        lemma_double_scaled_longest(limit as nat, longest as nat);
    }
}

} // verus!
