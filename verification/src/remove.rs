//! Object removal and retouch bookkeeping: native rectangles, repaired
//! patches, binary stroke masks and the single-context crop planner.
use vstd::prelude::*;
use crate::int_util::{spec_max, spec_min, sat_add_u32, sat_sub_u32, max_u32, min_u32, saturating_mul_u32, saturating_mul_usize};

verus! {

pub const BIG_LAMA_INPUT_EDGE: u32 = 512;
pub const REMOVE_MAX_STROKES: usize = 512;
pub const REMOVE_MAX_POINTS_PER_STROKE: usize = 65_536;
pub const REMOVE_MAX_PATCHES_PER_STROKE: usize = 256;
/// Smallest edge of a removal context crop before it is clamped to the image.
pub const REMOVE_MIN_CONTEXT_EDGE: u32 = 384;

#[derive(Clone, Copy, Debug, PartialEq, Eq, Structural)]
pub enum RetouchTool {
    Clone,
    Heal,
}

impl Default for RetouchTool {
    fn default() -> (r: Self)
        ensures
            r == RetouchTool::Clone,
    {
        RetouchTool::Clone
    }
}

impl RetouchTool {
    pub fn label(self) -> (r: &'static str)
        ensures
            r@ == (match self {
                RetouchTool::Clone => "Clone"@,
                RetouchTool::Heal => "Heal"@,
            }),
    {
        match self {
            RetouchTool::Clone => "Clone",
            RetouchTool::Heal => "Heal",
        }
    }
}

#[derive(Clone, Copy, Debug, PartialEq, Eq, Structural)]
pub enum RetouchAlignment {
    Unaligned,
    Aligned,
    Registered,
    Fixed,
}

impl Default for RetouchAlignment {
    fn default() -> (r: Self)
        ensures
            r == RetouchAlignment::Unaligned,
    {
        RetouchAlignment::Unaligned
    }
}

impl RetouchAlignment {
    /// Every alignment mode, in menu order.
    pub fn all() -> (r: [RetouchAlignment; 4])
        ensures
            r@ == seq![
                RetouchAlignment::Unaligned,
                RetouchAlignment::Aligned,
                RetouchAlignment::Registered,
                RetouchAlignment::Fixed,
            ],
    {
        [
            RetouchAlignment::Unaligned,
            RetouchAlignment::Aligned,
            RetouchAlignment::Registered,
            RetouchAlignment::Fixed,
        ]
    }

    pub fn label(self) -> (r: &'static str)
        ensures
            r@ == (match self {
                RetouchAlignment::Unaligned => "None"@,
                RetouchAlignment::Aligned => "Aligned"@,
                RetouchAlignment::Registered => "Registered"@,
                RetouchAlignment::Fixed => "Fixed"@,
            }),
    {
        match self {
            RetouchAlignment::Unaligned => "None",
            RetouchAlignment::Aligned => "Aligned",
            RetouchAlignment::Registered => "Registered",
            RetouchAlignment::Fixed => "Fixed",
        }
    }
}

/// An axis-aligned rectangle in native image pixels.
#[derive(Clone, Copy, Debug, PartialEq, Eq, Structural)]
pub struct NativeRect {
    pub x: u32,
    pub y: u32,
    pub width: u32,
    pub height: u32,
}

impl Default for NativeRect {
    fn default() -> (r: Self)
        ensures
            r == (NativeRect { x: 0, y: 0, width: 0, height: 0 }),
    {
        NativeRect { x: 0, y: 0, width: 0, height: 0 }
    }
}

impl NativeRect {
    pub open spec fn spec_right(self) -> u32 {
        sat_add_u32(self.x, self.width)
    }

    pub open spec fn spec_bottom(self) -> u32 {
        sat_add_u32(self.y, self.height)
    }

    /// The rectangle is non-empty and its far edges do not saturate.
    pub open spec fn is_exact(self) -> bool {
        &&& self.width > 0
        &&& self.height > 0
        &&& self.x + self.width <= u32::MAX
        &&& self.y + self.height <= u32::MAX
    }

    /// `inner` lies completely inside `self`.
    pub open spec fn contains_rect(self, inner: NativeRect) -> bool {
        &&& self.x <= inner.x
        &&& self.y <= inner.y
        &&& inner.spec_right() <= self.spec_right()
        &&& inner.spec_bottom() <= self.spec_bottom()
    }

    pub open spec fn spec_intersect(self, other: NativeRect) -> Option<NativeRect> {
        let x0 = spec_max(self.x as int, other.x as int);
        let y0 = spec_max(self.y as int, other.y as int);
        let x1 = spec_min(self.spec_right() as int, other.spec_right() as int);
        let y1 = spec_min(self.spec_bottom() as int, other.spec_bottom() as int);
        if x1 > x0 && y1 > y0 {
            Some(NativeRect { x: x0 as u32, y: y0 as u32, width: (x1 - x0) as u32, height: (y1 - y0) as u32 })
        } else {
            None
        }
    }

    pub fn right(self) -> (r: u32)
        ensures
            r == self.spec_right(),
    {
        self.x.saturating_add(self.width)
    }

    pub fn bottom(self) -> (r: u32)
        ensures
            r == self.spec_bottom(),
    {
        self.y.saturating_add(self.height)
    }

    /// The overlap of two rectangles, or `None` when they share no pixel.
    pub fn intersect(self, other: Self) -> (r: Option<Self>)
        ensures
            r == self.spec_intersect(other),
    {
        let x0 = max_u32(self.x, other.x);
        let y0 = max_u32(self.y, other.y);
        let x1 = min_u32(self.right(), other.right());
        let y1 = min_u32(self.bottom(), other.bottom());
        if x1 > x0 && y1 > y0 {
            Some(NativeRect { x: x0, y: y0, width: x1 - x0, height: y1 - y0 })
        } else {
            None
        }
    }
}

/// Intersecting rectangles does not depend on their order.
pub proof fn lemma_intersect_commutes(a: NativeRect, b: NativeRect)
    ensures
        a.spec_intersect(b) == b.spec_intersect(a),
{
}

/// An overlap lies inside both rectangles.
pub proof fn lemma_intersect_is_contained(a: NativeRect, b: NativeRect)
    ensures
        a.spec_intersect(b) matches Some(r) ==> a.contains_rect(r) && b.contains_rect(r),
{
}

/// Intersecting with an enclosing rectangle gives back the enclosed one.
pub proof fn lemma_intersect_with_enclosing(outer: NativeRect, inner: NativeRect)
    requires
        inner.is_exact(),
        outer.contains_rect(inner),
    ensures
        outer.spec_intersect(inner) == Some(inner),
{
}

/// A repaired scene-linear RGB patch (half-float bits) with its coverage.
#[derive(Clone, Debug)]
pub struct RemovePatch {
    pub bounds: NativeRect,
    pub rgb_scene16f: Vec<u16>,
    pub alpha: Vec<u8>,
}

pub open spec fn patch_pixel_count(bounds: NativeRect) -> int {
    bounds.width as int * bounds.height as int
}

impl RemovePatch {
    /// Builds a patch, checking that both buffers match the bounds.
    pub fn new_scene(bounds: NativeRect, rgb_scene16f: Vec<u16>, alpha: Vec<u8>) -> (r: Result<
        Self,
        &'static str,
    >)
        ensures
            ({
                let pixels = patch_pixel_count(bounds);
                let rgb_expected = if pixels * 3 > usize::MAX { usize::MAX as int } else { pixels * 3 };
                if pixels > usize::MAX {
                    r matches Err(e) && e@ == "remove patch pixel count overflows"@
                } else if pixels == 0 {
                    r matches Err(e) && e@ == "remove patch is empty"@
                } else if rgb_scene16f@.len() != rgb_expected {
                    r matches Err(e) && e@ == "remove scene RGB length does not match bounds"@
                } else if alpha@.len() != pixels {
                    r matches Err(e) && e@ == "remove patch alpha length does not match bounds"@
                } else {
                    r matches Ok(p) && p.bounds == bounds && p.rgb_scene16f@ == rgb_scene16f@
                        && p.alpha@ == alpha@
                }
            }),
    {
        let pixels = match (bounds.width as usize).checked_mul(bounds.height as usize) {
            Some(p) => p,
            None => return Err("remove patch pixel count overflows"),
        };
        if pixels == 0 {
            return Err("remove patch is empty");
        }
        if rgb_scene16f.len() != saturating_mul_usize(pixels, 3) {
            return Err("remove scene RGB length does not match bounds");
        }
        if alpha.len() != pixels {
            return Err("remove patch alpha length does not match bounds");
        }
        Ok(RemovePatch { bounds, rgb_scene16f, alpha })
    }

    pub fn has_scene_pixels(&self) -> (r: bool)
        ensures
            r == (self.rgb_scene16f@.len() > 0),
    {
        self.rgb_scene16f.len() != 0
    }
}

/// A binary brush mask over `bounds`, one byte per pixel, row-major.
#[derive(Clone, Debug)]
pub struct RemoveMask {
    pub bounds: NativeRect,
    pub pixels: Vec<u8>,
}

/// Some pixel of the mask is set.
pub open spec fn has_coverage(pixels: Seq<u8>) -> bool {
    exists|i: int| 0 <= i < pixels.len() && pixels[i] != 0
}

impl RemoveMask {
    pub open spec fn covers(self, x: u32, y: u32) -> bool {
        &&& self.bounds.x <= x
        &&& self.bounds.y <= y
        &&& x < self.bounds.spec_right()
        &&& y < self.bounds.spec_bottom()
    }

    pub open spec fn local_index(self, x: u32, y: u32) -> int {
        (y - self.bounds.y) * self.bounds.width + (x - self.bounds.x)
    }

    /// No pixel of the mask is set.
    pub fn is_empty(&self) -> (r: bool)
        ensures
            r == !has_coverage(self.pixels@),
    {
        let mut i: usize = 0;
        while i < self.pixels.len()
            invariant
                0 <= i <= self.pixels@.len(),
                forall|j: int| 0 <= j < i ==> self.pixels@[j] == 0,
            decreases self.pixels@.len() - i,
        {
            if self.pixels[i] != 0 {
                return false;
            }
            i += 1;
        }
        true
    }

    /// Whether the global pixel `(x, y)` is inside the bounds and set.
    pub fn contains_global(&self, x: u32, y: u32) -> (r: bool)
        requires
            self.covers(x, y) ==> self.local_index(x, y) < self.pixels@.len(),
        ensures
            r == (self.covers(x, y) && self.pixels@[self.local_index(x, y)] != 0),
    {
        if x < self.bounds.x || y < self.bounds.y || x >= self.bounds.right() || y >= self.bounds.bottom() {
            return false;
        }
        let local_x = (x - self.bounds.x) as usize;
        let local_y = (y - self.bounds.y) as usize;
        let width = self.bounds.width as usize;
        let len = self.pixels.len();
        proof {
            assert(self.local_index(x, y) < len);
            assert(self.local_index(x, y) == local_y as int * width as int + local_x as int);
            assert(local_y as int * width as int <= self.local_index(x, y));
        }
        self.pixels[local_y * width + local_x] != 0
    }
}

/// The square of edge `min(max(requested, 1), width, height)` centred on the
/// given point and shifted so that it lies inside the image.
pub open spec fn spec_square_inside_image(
    image_width: u32,
    image_height: u32,
    center_x: u32,
    center_y: u32,
    requested_edge: u32,
) -> NativeRect {
    let edge = spec_min(
        spec_min(spec_max(requested_edge as int, 1), spec_max(image_width as int, 1)),
        spec_max(image_height as int, 1),
    );
    let half = edge / 2;
    let x = sat_sub_u32(center_x, half as u32);
    let y = sat_sub_u32(center_y, half as u32);
    let x = if sat_add_u32(x, edge as u32) > image_width { sat_sub_u32(image_width, edge as u32) } else { x };
    let y = if sat_add_u32(y, edge as u32) > image_height { sat_sub_u32(image_height, edge as u32) } else { y };
    NativeRect { x, y, width: edge as u32, height: edge as u32 }
}

fn square_inside_image(
    image_width: u32,
    image_height: u32,
    center_x: u32,
    center_y: u32,
    requested_edge: u32,
) -> (r: NativeRect)
    ensures
        r == spec_square_inside_image(image_width, image_height, center_x, center_y, requested_edge),
{
    let edge = min_u32(min_u32(max_u32(requested_edge, 1), max_u32(image_width, 1)), max_u32(image_height, 1));
    let half = edge / 2;
    let mut x = center_x.saturating_sub(half);
    let mut y = center_y.saturating_sub(half);
    if x.saturating_add(edge) > image_width {
        x = image_width.saturating_sub(edge);
    }
    if y.saturating_add(edge) > image_height {
        y = image_height.saturating_sub(edge);
    }
    NativeRect { x, y, width: edge, height: edge }
}

/// Longest mask edge, at least one pixel.
pub open spec fn mask_edge(mask: RemoveMask) -> int {
    spec_max(spec_max(mask.bounds.width as int, mask.bounds.height as int), 1)
}

/// The planner will centre a square on the mask.
pub open spec fn plan_uses_square(image_width: u32, image_height: u32, mask: RemoveMask) -> bool {
    &&& image_width > 0
    &&& image_height > 0
    &&& has_coverage(mask.pixels@)
    &&& mask_edge(mask) <= spec_min(image_width as int, image_height as int)
}

/// The mask centre can be computed without overflow.
pub open spec fn mask_center_fits(mask: RemoveMask) -> bool {
    &&& mask.bounds.x + mask.bounds.width / 2 <= u32::MAX
    &&& mask.bounds.y + mask.bounds.height / 2 <= u32::MAX
}

pub open spec fn spec_plan_remove_context_crop(
    image_width: u32,
    image_height: u32,
    mask: RemoveMask,
) -> Option<NativeRect> {
    if image_width == 0 || image_height == 0 || !has_coverage(mask.pixels@) {
        None
    } else {
        let shortest = spec_max(spec_min(image_width as int, image_height as int), 1);
        let edge = mask_edge(mask);
        let tripled = if edge * 3 > u32::MAX { u32::MAX as int } else { edge * 3 };
        let desired = spec_min(spec_max(tripled, REMOVE_MIN_CONTEXT_EDGE as int), shortest);
        if edge <= shortest {
            Some(
                spec_square_inside_image(
                    image_width,
                    image_height,
                    (mask.bounds.x + mask.bounds.width / 2) as u32,
                    (mask.bounds.y + mask.bounds.height / 2) as u32,
                    desired as u32,
                ),
            )
        } else {
            Some(NativeRect { x: 0, y: 0, width: image_width, height: image_height })
        }
    }
}

/// Chooses the sole native context for one removal stroke: a square about
/// three times the mask edge (at least 384 pixels) centred on the mask, or the
/// whole image when no square can hold the mask. The stroke is never tiled.
pub fn plan_remove_context_crop(image_width: u32, image_height: u32, mask: &RemoveMask) -> (r:
    Option<NativeRect>)
    requires
        plan_uses_square(image_width, image_height, *mask) ==> mask_center_fits(*mask),
    ensures
        r == spec_plan_remove_context_crop(image_width, image_height, *mask),
{
    if image_width == 0 || image_height == 0 || mask.is_empty() {
        return None;
    }
    let shortest = max_u32(min_u32(image_width, image_height), 1);
    let mask_edge = max_u32(max_u32(mask.bounds.width, mask.bounds.height), 1);
    let desired = min_u32(max_u32(saturating_mul_u32(mask_edge, 3), REMOVE_MIN_CONTEXT_EDGE), shortest);
    if mask_edge <= shortest {
        return Some(
            square_inside_image(
                image_width,
                image_height,
                mask.bounds.x + mask.bounds.width / 2,
                mask.bounds.y + mask.bounds.height / 2,
                desired,
            ),
        );
    }
    Some(NativeRect { x: 0, y: 0, width: image_width, height: image_height })
}

/// The planned context always holds the whole mask, so one inference sees
/// every masked pixel: the crop contains the mask bounds, and intersecting it
/// with them gives the mask bounds back. When the mask fits in a square the
/// context is that square, otherwise it is the whole image.
pub proof fn lemma_context_crop_contains_mask(image_width: u32, image_height: u32, mask: RemoveMask)
    requires
        has_coverage(mask.pixels@),
        mask.bounds.is_exact(),
        mask.bounds.x + mask.bounds.width <= image_width,
        mask.bounds.y + mask.bounds.height <= image_height,
    ensures
        spec_plan_remove_context_crop(image_width, image_height, mask) matches Some(crop) && {
            &&& crop.contains_rect(mask.bounds)
            &&& crop.spec_intersect(mask.bounds) == Some(mask.bounds)
            &&& crop.spec_right() <= image_width
            &&& crop.spec_bottom() <= image_height
            &&& (mask_edge(mask) <= spec_min(image_width as int, image_height as int) ==> crop.width == crop.height)
        },
{
    let crop = spec_plan_remove_context_crop(image_width, image_height, mask).unwrap();
    lemma_intersect_with_enclosing(crop, mask.bounds);
}

} // verus!
