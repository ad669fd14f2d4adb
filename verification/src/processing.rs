//! Export tiling and the integer geometry of crops, proxies and padded
//! tiles: which pixels a region or tile holds and where they come from.
use crate::int_util::{sat_add_u32, sat_mul_u32, sat_sub_u32, spec_max, spec_min};
use crate::raw_loader::{AiDenoisedImage, CfaKind};
use crate::pixel_map::{clamp_int, lemma_row_major_join, row_major, CompactPixelMap};
use crate::scaling::{double_scaled_edge, double_scaled_floor, floor_scaled_edge, round_scaled_edge};
use vstd::prelude::*;

verus! {

/// Halo that covers every effect's spatial support, rounded up to a
/// multiple of 8.
pub const EXPORT_TILE_HALO: u32 = 656;
/// Halo of an export with only the always-on stages, rounded up to a
/// multiple of 8.
pub const MIN_EXPORT_TILE_HALO: u32 = 64;
/// Smallest core edge of an export tile.
pub const MIN_TILE_CORE_EDGE: u32 = 64;

/// Spatial reach, in pixels, of each stage of an export.
pub const HIGHLIGHT_RECONSTRUCTION_SUPPORT: u32 = 1;
pub const DEMOSAIC_CHAIN_SUPPORT: u32 = 32;
pub const COLOR_DENOISE_SUPPORT_FAST: u32 = 2;
pub const COLOR_DENOISE_SUPPORT_BALANCED: u32 = 30;
pub const COLOR_DENOISE_SUPPORT_HIGH: u32 = 78;
pub const TONE_GUIDE_SUPPORT: u32 = 24;
pub const LOCAL_EFFECTS_SUPPORT: u32 = 28;
pub const DEHAZE_SUPPORT: u32 = 30;
pub const NEON_SUPPORT: u32 = 48;
pub const MASK_BLUR_SUPPORT: u32 = 72;
pub const FOCUS_BLUR_SUPPORT: u32 = 144;
pub const EDGE_GLOW_SUPPORT: u32 = 48;
pub const PIXELATE_SUPPORT: u32 = 96;
pub const GLOW_SUPPORT: u32 = 96;
pub const COLOR_MIXER_SUPPORT: u32 = 4;

/// The pipeline stage from which a change must be recomputed.
#[derive(Clone, Copy, Debug, PartialEq, Eq, Structural)]
pub enum ProcessingStage {
    Raw,
    Tone,
    Output,
}

impl ProcessingStage {
    pub fn label(self) -> (r: &'static str)
        ensures
            r@ == (match self {
                ProcessingStage::Raw => "RAW reconstruction"@,
                ProcessingStage::Tone => "tone analysis"@,
                ProcessingStage::Output => "display rendering"@,
            }),
    {
        match self {
            ProcessingStage::Raw => "RAW reconstruction",
            ProcessingStage::Tone => "tone analysis",
            ProcessingStage::Output => "display rendering",
        }
    }
}

/// Bounds of the interactive proxy.
#[derive(Clone, Copy, Debug)]
pub struct ProxySpec {
    pub max_edge: u32,
}

impl Default for ProxySpec {
    fn default() -> (r: Self)
        ensures
            r.max_edge == 2048,
    {
        ProxySpec { max_edge: 2048 }
    }
}

/// Core edge and halo of export tiles.
#[derive(Clone, Copy, Debug)]
pub struct TileSpec {
    pub core_edge: u32,
    pub halo: u32,
}

impl Default for TileSpec {
    fn default() -> (r: Self)
        ensures
            r.core_edge == 1024,
            r.halo == EXPORT_TILE_HALO,
    {
        TileSpec { core_edge: 1024, halo: EXPORT_TILE_HALO }
    }
}

/// One export tile: its core in image coordinates, the core inside the
/// padded tile, the padded size, and the image position of the padded
/// tile's origin.
#[derive(Clone, Copy, Debug, PartialEq, Eq, Structural)]
pub struct ExportTile {
    pub core_x: u32,
    pub core_y: u32,
    pub core_width: u32,
    pub core_height: u32,
    pub local_core_x: u32,
    pub local_core_y: u32,
    pub padded_width: u32,
    pub padded_height: u32,
    pub global_origin_x: i32,
    pub global_origin_y: i32,
}

/// The tiles of an export, row by row.
#[derive(Clone, Debug)]
pub struct TilePlan {
    pub full_width: u32,
    pub full_height: u32,
    pub spec: TileSpec,
    pub tiles: Vec<ExportTile>,
}

/// The core edge used by a plan: at least [`MIN_TILE_CORE_EDGE`].
pub open spec fn plan_core_edge(spec: TileSpec) -> u32 {
    if spec.core_edge >= MIN_TILE_CORE_EDGE { spec.core_edge } else { MIN_TILE_CORE_EDGE }
}

/// The edge of a padded tile: the core and a halo on both sides, saturated.
pub open spec fn plan_padded_edge(core: u32, halo: u32) -> u32 {
    sat_add_u32(core, sat_mul_u32(halo, 2))
}

/// Tiles needed along an edge of `full` pixels: `ceil(full / core)`.
pub open spec fn tiles_along(full: u32, core: u32) -> int {
    (full + core - 1) / (core as int)
}

/// The padded origin of a tile at `pos` computed in `i32`, as the plan does:
/// `pos as i32 - halo as i32`.
pub open spec fn origin_value(pos: int, halo: u32) -> int {
    ((pos as u32) as i32) as int - (halo as i32) as int
}

/// That origin fits in `i32`.
pub open spec fn origin_fits(pos: int, halo: u32) -> bool {
    i32::MIN <= origin_value(pos, halo) <= i32::MAX
}

/// Every tile start along an edge has an origin that fits in `i32`.
pub open spec fn origins_fit(full: u32, core: u32, halo: u32) -> bool {
    forall|pos: int| 0 <= pos < full && pos % (core as int) == 0 ==> #[trigger] origin_fits(pos, halo)
}

/// The tile in row `row` and column `col` of a plan.
pub open spec fn plan_tile(full_width: u32, full_height: u32, core: u32, halo: u32, row: int, col: int) -> ExportTile {
    let x = col * core;
    let y = row * core;
    let padded = plan_padded_edge(core, halo);
    ExportTile {
        core_x: x as u32,
        core_y: y as u32,
        core_width: spec_min(core as int, full_width - x) as u32,
        core_height: spec_min(core as int, full_height - y) as u32,
        local_core_x: halo,
        local_core_y: halo,
        padded_width: padded,
        padded_height: padded,
        global_origin_x: origin_value(x, halo) as i32,
        global_origin_y: origin_value(y, halo) as i32,
    }
}

/// `k * core < full` exactly when `k` is below the tile count.
proof fn lemma_tiles_along(k: int, full: u32, core: u32)
    requires
        core > 0,
        k >= 0,
    ensures
        (k * core < full) <==> (k < tiles_along(full, core)),
        tiles_along(full, core) >= 0,
        tiles_along(full, core) * core < full + core,
{
    let c = core as int;
    let n = full + c - 1;
    let q = n / c;
    let r = n % c;
    vstd::arithmetic::div_mod::lemma_fundamental_div_mod(n, c);
    assert(0 <= r < c) by {
        vstd::arithmetic::div_mod::lemma_mod_bound(n, c);
    }
    assert(q >= 0) by (nonlinear_arith)
        requires
            n >= 0,
            c > 0,
            q == n / c,
    ;
    assert(q * c < full + c) by (nonlinear_arith)
        requires
            n == c * q + r,
            0 <= r,
            n == full + c - 1,
    ;
    if k < q {
        assert(k * c < full) by (nonlinear_arith)
            requires
                k <= q - 1,
                n == c * q + r,
                0 <= r < c,
                n == full + c - 1,
                c > 0,
        ;
    } else {
        assert(k * c >= full) by (nonlinear_arith)
            requires
                k >= q,
                n == c * q + r,
                0 <= r < c,
                n == full + c - 1,
                c > 0,
        ;
    }
}

impl TilePlan {
    /// Cuts a `full_width` x `full_height` image into tiles of
    /// `max(core_edge, 64)` pixels, row by row, the last row and column
    /// holding what is left. Each tile carries a halo of `halo` pixels on
    /// every side.
    pub fn new(full_width: u32, full_height: u32, spec: TileSpec) -> (r: Self)
        requires
            origins_fit(full_width, plan_core_edge(spec), spec.halo),
            origins_fit(full_height, plan_core_edge(spec), spec.halo),
        ensures
            r.full_width == full_width,
            r.full_height == full_height,
            r.spec.core_edge == plan_core_edge(spec),
            r.spec.halo == spec.halo,
            r.tiles@.len() == tiles_along(full_height, plan_core_edge(spec)) * tiles_along(
                full_width,
                plan_core_edge(spec),
            ),
            forall|i: int|
                0 <= i < r.tiles@.len() ==> #[trigger] r.tiles@[i] == plan_tile(
                    full_width,
                    full_height,
                    plan_core_edge(spec),
                    spec.halo,
                    i / tiles_along(full_width, plan_core_edge(spec)),
                    i % tiles_along(full_width, plan_core_edge(spec)),
                ),
    {
        let core_edge = if spec.core_edge >= MIN_TILE_CORE_EDGE { spec.core_edge } else { MIN_TILE_CORE_EDGE };
        let halo = spec.halo;
        let doubled = match halo.checked_mul(2) {
            Some(v) => v,
            None => u32::MAX,
        };
        let padded = match core_edge.checked_add(doubled) {
            Some(v) => v,
            None => u32::MAX,
        };
        let ghost cols = tiles_along(full_width, core_edge);
        let ghost rows = tiles_along(full_height, core_edge);
        proof {
            lemma_tiles_along(0, full_width, core_edge);
            lemma_tiles_along(0, full_height, core_edge);
        }
        let mut tiles: Vec<ExportTile> = Vec::new();
        let mut y: u32 = 0;
        let ghost mut row: int = 0;
        while y < full_height
            invariant
                core_edge == plan_core_edge(spec),
                halo == spec.halo,
                padded == plan_padded_edge(core_edge, halo),
                origins_fit(full_width, core_edge, halo),
                origins_fit(full_height, core_edge, halo),
                cols == tiles_along(full_width, core_edge),
                rows == tiles_along(full_height, core_edge),
                cols >= 0,
                rows >= 0,
                0 <= row <= rows,
                y as int == spec_min(row * core_edge, u32::MAX as int),
                row < rows ==> y as int == row * core_edge,
                tiles@.len() == row * cols,
                forall|i: int|
                    0 <= i < tiles@.len() ==> #[trigger] tiles@[i] == plan_tile(
                        full_width,
                        full_height,
                        core_edge,
                        halo,
                        i / cols,
                        i % cols,
                    ),
            decreases rows - row,
        {
            proof {
                lemma_tiles_along(row, full_height, core_edge);
            }
            let core_height = if core_edge <= full_height - y { core_edge } else { full_height - y };
            proof {
                assert(y as int % (core_edge as int) == 0) by {
                    vstd::arithmetic::div_mod::lemma_mod_multiples_basic(row, core_edge as int);
                }
                assert(origin_fits(y as int, halo));
            }
            let origin_y = (y as i32) - (halo as i32);
            let mut x: u32 = 0;
            let ghost mut col: int = 0;
            while x < full_width
                invariant
                    core_edge == plan_core_edge(spec),
                    halo == spec.halo,
                    padded == plan_padded_edge(core_edge, halo),
                    origins_fit(full_width, core_edge, halo),
                    cols == tiles_along(full_width, core_edge),
                    cols >= 0,
                    0 <= row < rows,
                    y as int == row * core_edge,
                    y < full_height,
                    core_height as int == spec_min(core_edge as int, full_height - y),
                    origin_y as int == origin_value(y as int, halo),
                    0 <= col <= cols,
                    x as int == spec_min(col * core_edge, u32::MAX as int),
                    col < cols ==> x as int == col * core_edge,
                    tiles@.len() == row * cols + col,
                    forall|i: int|
                        0 <= i < tiles@.len() ==> #[trigger] tiles@[i] == plan_tile(
                            full_width,
                            full_height,
                            core_edge,
                            halo,
                            i / cols,
                            i % cols,
                        ),
                decreases cols - col,
            {
                proof {
                    lemma_tiles_along(col, full_width, core_edge);
                    assert(x as int % (core_edge as int) == 0) by {
                        vstd::arithmetic::div_mod::lemma_mod_multiples_basic(col, core_edge as int);
                    }
                    assert(origin_fits(x as int, halo));
                }
                let core_width = if core_edge <= full_width - x { core_edge } else { full_width - x };
                let origin_x = (x as i32) - (halo as i32);
                let tile = ExportTile {
                    core_x: x,
                    core_y: y,
                    core_width,
                    core_height,
                    local_core_x: halo,
                    local_core_y: halo,
                    padded_width: padded,
                    padded_height: padded,
                    global_origin_x: origin_x,
                    global_origin_y: origin_y,
                };
                proof {
                    lemma_row_major_join(col, row, cols);
                    assert(row * cols + col == row_major(cols, col, row));
                    assert(tile == plan_tile(full_width, full_height, core_edge, halo, row, col));
                }
                tiles.push(tile);
                x = match x.checked_add(core_edge) {
                    Some(v) => v,
                    None => u32::MAX,
                };
                proof {
                    col = col + 1;
                    lemma_tiles_along(col, full_width, core_edge);
                    assert((col - 1) * core_edge + core_edge == col * core_edge) by (nonlinear_arith);
                }
            }
            proof {
                lemma_tiles_along(col, full_width, core_edge);
                if col < cols {
                    assert(x as int == col * core_edge);
                    assert(false);
                }
                assert(row * cols + cols == (row + 1) * cols) by (nonlinear_arith);
            }
            y = match y.checked_add(core_edge) {
                Some(v) => v,
                None => u32::MAX,
            };
            proof {
                row = row + 1;
                lemma_tiles_along(row, full_height, core_edge);
                assert((row - 1) * core_edge + core_edge == row * core_edge) by (nonlinear_arith);
            }
        }
        proof {
            lemma_tiles_along(row, full_height, core_edge);
            if row < rows {
                assert(y as int == row * core_edge);
                assert(false);
            }
            assert(rows * cols == cols * rows) by (nonlinear_arith);
        }
        TilePlan { full_width, full_height, spec: TileSpec { core_edge, halo }, tiles }
    }

    pub fn tile_count(&self) -> (r: usize)
        ensures
            r == self.tiles@.len(),
    {
        self.tiles.len()
    }
}

/// The core of `tile` holds pixel `(px, py)`.
pub open spec fn core_contains(tile: ExportTile, px: int, py: int) -> bool {
    &&& tile.core_x <= px < tile.core_x + tile.core_width
    &&& tile.core_y <= py < tile.core_y + tile.core_height
}

/// The tile cores of a plan partition the image: every pixel lies in the
/// core of the tile at row `py / core` and column `px / core`, and in no
/// other.
pub proof fn lemma_tile_cores_partition_image(full_width: u32, full_height: u32, spec: TileSpec, px: int, py: int)
    requires
        0 <= px < full_width,
        0 <= py < full_height,
    ensures
        ({
            let core = plan_core_edge(spec);
            &&& py / (core as int) < tiles_along(full_height, core)
            &&& px / (core as int) < tiles_along(full_width, core)
            &&& forall|row: int, col: int|
                0 <= row < tiles_along(full_height, core) && 0 <= col < tiles_along(full_width, core)
                    ==> (core_contains(
                    #[trigger] plan_tile(full_width, full_height, core, spec.halo, row, col),
                    px,
                    py,
                ) <==> (row == py / (core as int) && col == px / (core as int)))
        }),
{
    let core = plan_core_edge(spec);
    let c = core as int;
    vstd::arithmetic::div_mod::lemma_fundamental_div_mod(px, c);
    vstd::arithmetic::div_mod::lemma_mod_bound(px, c);
    vstd::arithmetic::div_mod::lemma_fundamental_div_mod(py, c);
    vstd::arithmetic::div_mod::lemma_mod_bound(py, c);
    assert(px / c >= 0 && py / c >= 0) by (nonlinear_arith)
        requires
            px >= 0,
            py >= 0,
            c > 0,
            px / c == px / c,
    ;
    assert((px / c) * c <= px) by (nonlinear_arith)
        requires
            px == c * (px / c) + px % c,
            0 <= px % c,
    ;
    assert((py / c) * c <= py) by (nonlinear_arith)
        requires
            py == c * (py / c) + py % c,
            0 <= py % c,
    ;
    lemma_tiles_along(px / c, full_width, core);
    lemma_tiles_along(py / c, full_height, core);
    assert forall|row: int, col: int|
        0 <= row < tiles_along(full_height, core) && 0 <= col < tiles_along(full_width, core) implies (
    core_contains(#[trigger] plan_tile(full_width, full_height, core, spec.halo, row, col), px, py) <==> (
    row == py / c && col == px / c)) by {
        lemma_tiles_along(row, full_height, core);
        lemma_tiles_along(col, full_width, core);
        assert(row * c >= 0 && col * c >= 0) by (nonlinear_arith)
            requires
                row >= 0,
                col >= 0,
                c > 0,
        ;
        let tile = plan_tile(full_width, full_height, core, spec.halo, row, col);
        if core_contains(tile, px, py) {
            assert(col * c <= px < col * c + c);
            assert(row * c <= py < row * c + c);
            vstd::arithmetic::div_mod::lemma_fundamental_div_mod_converse(px, c, col, px - col * c);
            vstd::arithmetic::div_mod::lemma_fundamental_div_mod_converse(py, c, row, py - row * c);
        }
        if row == py / c && col == px / c {
            assert(px < col * c + c) by (nonlinear_arith)
                requires
                    px == c * (px / c) + px % c,
                    px % c < c,
                    col == px / c,
            ;
            assert(py < row * c + c) by (nonlinear_arith)
                requires
                    py == c * (py / c) + py % c,
                    py % c < c,
                    row == py / c,
            ;
        }
    }
}

/// A crop region clamped to a `raw_width` x `raw_height` image: the origin
/// moved inside, the size at least one pixel and at most what remains.
pub open spec fn clamped_region(raw_width: u32, raw_height: u32, x: u32, y: u32, width: u32, height: u32) -> (
    u32,
    u32,
    u32,
    u32,
) {
    let cx = spec_min(x as int, sat_sub_u32(raw_width, 1) as int);
    let cy = spec_min(y as int, sat_sub_u32(raw_height, 1) as int);
    let cw = spec_min(spec_max(width as int, 1), raw_width - cx);
    let ch = spec_min(spec_max(height as int, 1), raw_height - cy);
    (cx as u32, cy as u32, cw as u32, ch as u32)
}

/// Clamps a crop region to the image.
pub fn clamp_region(raw_width: u32, raw_height: u32, x: u32, y: u32, width: u32, height: u32) -> (r: (
    u32,
    u32,
    u32,
    u32,
))
    ensures
        r == clamped_region(raw_width, raw_height, x, y, width, height),
        r.0 + r.2 <= spec_max(raw_width as int, 0),
        r.1 + r.3 <= spec_max(raw_height as int, 0),
{
    let last_x = if raw_width >= 1 { raw_width - 1 } else { 0 };
    let last_y = if raw_height >= 1 { raw_height - 1 } else { 0 };
    let cx = if x <= last_x { x } else { last_x };
    let cy = if y <= last_y { y } else { last_y };
    let w = if width >= 1 { width } else { 1 };
    let h = if height >= 1 { height } else { 1 };
    let cw = if w <= raw_width - cx { w } else { raw_width - cx };
    let ch = if h <= raw_height - cy { h } else { raw_height - cy };
    (cx, cy, cw, ch)
}

/// The pixels of a crop: row `r`, column `c` of the region holds the source
/// pixel `(x + c, y + r)`.
pub open spec fn crop_pixels(pixels: Seq<u16>, raw_width: u32, x: u32, y: u32, width: u32, height: u32) -> Seq<u16> {
    Seq::new(
        (width * height) as nat,
        |i: int| pixels[row_major(raw_width as int, x + i % (width as int), y + i / (width as int))],
    )
}

/// The crop fits the `u32` arithmetic that addresses its rows.
pub open spec fn crop_addressable(raw_width: u32, raw_height: u32, x: u32, y: u32, width: u32, height: u32) -> bool {
    let (cx, cy, cw, ch) = clamped_region(raw_width, raw_height, x, y, width, height);
    &&& cw * ch <= u32::MAX
    &&& ch > 0 ==> (cy + ch - 1) * raw_width + cx <= u32::MAX
}

/// Copies the sensor pixels of a crop region, clamped as by
/// [`clamp_region`], out of a row-major `raw_width` x `raw_height` buffer.
pub fn crop_raw_pixels(pixels: &[u16], raw_width: u32, raw_height: u32, x: u32, y: u32, width: u32, height: u32) -> (r:
    Vec<u16>)
    requires
        pixels@.len() == raw_width * raw_height,
        crop_addressable(raw_width, raw_height, x, y, width, height),
    ensures
        ({
            let (cx, cy, cw, ch) = clamped_region(raw_width, raw_height, x, y, width, height);
            r@ == crop_pixels(pixels@, raw_width, cx, cy, cw, ch)
        }),
{
    let len = pixels.len();
    let (cx, cy, cw, ch) = clamp_region(raw_width, raw_height, x, y, width, height);
    let ghost expected = crop_pixels(pixels@, raw_width, cx, cy, cw, ch);
    let mut out: Vec<u16> = Vec::new();
    let mut r: u32 = 0;
    while r < ch
        invariant
            len == pixels@.len(),
            pixels@.len() == raw_width * raw_height,
            cx + cw <= raw_width,
            cy + ch <= raw_height,
            cw * ch <= u32::MAX,
            ch > 0 ==> (cy + ch - 1) * raw_width + cx <= u32::MAX,
            expected == crop_pixels(pixels@, raw_width, cx, cy, cw, ch),
            0 <= r <= ch,
            out@ == expected.take(r * cw),
        decreases ch - r,
    {
        let row = cy + r;
        proof {
            assert(row * raw_width <= (cy + ch - 1) * raw_width) by (nonlinear_arith)
                requires
                    row <= cy + ch - 1,
                    raw_width >= 0,
            ;
            assert((row + 1) * raw_width <= raw_width * raw_height) by (nonlinear_arith)
                requires
                    row + 1 <= raw_height,
                    raw_width >= 0,
            ;
            assert(row * raw_width + raw_width == (row + 1) * raw_width) by (nonlinear_arith);
            assert(r * cw + cw <= cw * ch) by (nonlinear_arith)
                requires
                    r + 1 <= ch,
                    cw >= 0,
            ;
        }
        let start = (row * raw_width + cx) as usize;
        let mut c: u32 = 0;
        while c < cw
            invariant
                len == pixels@.len(),
                pixels@.len() == raw_width * raw_height,
                cx + cw <= raw_width,
                start + cw <= len,
                expected == crop_pixels(pixels@, raw_width, cx, cy, cw, ch),
                row == cy + r,
                r < ch,
                r * cw + cw <= cw * ch,
                (row + 1) * raw_width <= raw_width * raw_height,
                start == row * raw_width + cx,
                0 <= c <= cw,
                out@ == expected.take(r * cw + c),
            decreases cw - c,
        {
            proof {
                lemma_row_major_join(c as int, r as int, cw as int);
                assert(expected[r * cw + c] == pixels@[start + c]);
                assert(expected.take(r * cw + c + 1) =~= expected.take(r * cw + c).push(expected[r * cw + c]));
            }
            out.push(pixels[start + c as usize]);
            c += 1;
        }
        r += 1;
        proof {
            assert((r - 1) * cw + cw == r * cw) by (nonlinear_arith);
        }
    }
    proof {
        assert(expected.take(ch * cw) =~= expected) by {
            assert(ch * cw == cw * ch) by (nonlinear_arith);
        }
    }
    out
}

/// Pixel `(local_x, local_y)` of a padded tile: the source pixel at the
/// tile's origin plus the local position, clamped into the image.
pub open spec fn padded_pixel(
    source: Seq<u16>,
    source_width: u32,
    source_height: u32,
    tile: ExportTile,
    local_x: int,
    local_y: int,
) -> u16 {
    let gx = clamp_int(tile.global_origin_x + local_x, 0, source_width - 1);
    let gy = clamp_int(tile.global_origin_y + local_y, 0, source_height - 1);
    source[row_major(source_width as int, gx, gy)]
}

/// The pixels of a padded tile, row-major.
pub open spec fn padded_pixels(source: Seq<u16>, source_width: u32, source_height: u32, tile: ExportTile) -> Seq<u16> {
    Seq::new(
        (tile.padded_width * tile.padded_height) as nat,
        |i: int|
            padded_pixel(
                source,
                source_width,
                source_height,
                tile,
                i % (tile.padded_width as int),
                i / (tile.padded_width as int),
            ),
    )
}

fn clamp_i64(value: i64, low: i64, high: i64) -> (r: i64)
    requires
        low <= high,
    ensures
        r == clamp_int(value as int, low as int, high as int),
{
    if value < low {
        low
    } else if value > high {
        high
    } else {
        value
    }
}

/// Fills `destination` with the sensor pixels of a padded tile; pixels of
/// the halo outside the image repeat the nearest edge pixel.
pub fn fill_padded_raw_pixels(
    source: &[u16],
    source_width: u32,
    source_height: u32,
    tile: ExportTile,
    destination: &mut Vec<u16>,
)
    requires
        source_width >= 1,
        source_height >= 1,
        source@.len() == source_width * source_height,
        tile.padded_width * tile.padded_height <= usize::MAX,
    ensures
        final(destination)@ == padded_pixels(source@, source_width, source_height, tile),
{
    let len = source.len();
    let ghost expected = padded_pixels(source@, source_width, source_height, tile);
    destination.clear();
    let width = tile.padded_width;
    let height = tile.padded_height;
    let max_x = source_width as i64 - 1;
    let max_y = source_height as i64 - 1;
    let mut local_y: u32 = 0;
    while local_y < height
        invariant
            source_width >= 1,
            source_height >= 1,
            len == source@.len(),
            source@.len() == source_width * source_height,
            width == tile.padded_width,
            height == tile.padded_height,
            max_x == source_width - 1,
            max_y == source_height - 1,
            expected == padded_pixels(source@, source_width, source_height, tile),
            0 <= local_y <= height,
            destination@ == expected.take(local_y * width),
            width * height <= usize::MAX,
        decreases height - local_y,
    {
        let global_y = clamp_i64(tile.global_origin_y as i64 + local_y as i64, 0, max_y);
        proof {
            assert(local_y * width + width <= width * height) by (nonlinear_arith)
                requires
                    local_y + 1 <= height,
                    width >= 0,
            ;
            assert(global_y * source_width + source_width <= source_width * source_height) by (nonlinear_arith)
                requires
                    0 <= global_y <= source_height - 1,
                    source_width >= 0,
            ;
        }
        let row_start = global_y as usize * source_width as usize;
        let mut local_x: u32 = 0;
        while local_x < width
            invariant
                source_width >= 1,
                len == source@.len(),
                source@.len() == source_width * source_height,
                width == tile.padded_width,
                height == tile.padded_height,
                max_x == source_width - 1,
                expected == padded_pixels(source@, source_width, source_height, tile),
                local_y < height,
                local_y * width + width <= width * height,
                global_y == clamp_int(tile.global_origin_y + local_y, 0, source_height - 1),
                0 <= global_y <= source_height - 1,
                global_y * source_width + source_width <= source_width * source_height,
                row_start == global_y * source_width,
                0 <= local_x <= width,
                destination@ == expected.take(local_y * width + local_x),
            decreases width - local_x,
        {
            let global_x = clamp_i64(tile.global_origin_x as i64 + local_x as i64, 0, max_x);
            proof {
                lemma_row_major_join(local_x as int, local_y as int, width as int);
                assert(expected.take(local_y * width + local_x + 1) =~= expected.take(
                    local_y * width + local_x,
                ).push(expected[local_y * width + local_x]));
            }
            destination.push(source[row_start + global_x as usize]);
            local_x += 1;
        }
        local_y += 1;
        proof {
            assert((local_y - 1) * width + width == local_y * width) by (nonlinear_arith);
        }
    }
    proof {
        assert(expected.take(height * width) =~= expected) by {
            assert(height * width == width * height) by (nonlinear_arith);
        }
    }
}

/// The source span `[start, end)` averaged into output sample `index` when
/// `source_count` samples shrink to `output_count`: an even partition, each
/// span at least one sample wide and inside the source.
pub open spec fn spec_proxy_partition(index: u32, source_count: u32, output_count: u32) -> (u32, u32) {
    let start = (index * source_count) / (output_count as int);
    let end = ((index + 1) * source_count) / (output_count as int);
    let end = spec_min(spec_max(end, start + 1), source_count as int);
    (start as u32, end as u32)
}

/// Splits `source_count` samples into `output_count` spans for a proxy.
pub fn proxy_partition(index: u32, source_count: u32, output_count: u32) -> (r: (u32, u32))
    requires
        index < output_count,
        output_count <= source_count,
    ensures
        r == spec_proxy_partition(index, source_count, output_count),
        r.0 < r.1 <= source_count,
{
    proof {
        assert(index * source_count / (output_count as int) < source_count) by (nonlinear_arith)
            requires
                index < output_count,
                output_count <= source_count,
                output_count > 0,
        ;
        assert((index + 1) * source_count / (output_count as int) <= source_count) by (nonlinear_arith)
            requires
                index + 1 <= output_count,
                output_count > 0,
        ;
    }
    proof {
        assert((index as u64) * (source_count as u64) + (source_count as u64) <= 0xffff_ffff_0000_0000u64) by (nonlinear_arith)
            requires
                index <= 0xffff_fffeu64,
                source_count <= 0xffff_ffffu64,
        ;
        assert(((index as u64) + 1) * (source_count as u64) == (index as u64) * (source_count as u64) + (source_count as u64)) by (nonlinear_arith);
    }
    let start = ((index as u64) * (source_count as u64) / (output_count as u64)) as u32;
    let end = (((index as u64) + 1) * (source_count as u64) / (output_count as u64)) as u32;
    let end = if end >= start + 1 { end } else { start + 1 };
    let end = if end <= source_count { end } else { source_count };
    (start, end)
}


/// Matching samples in one footprint row: the sum and the count of the
/// samples in columns `x0..x1` of row `y` whose colour is `cfa`.
pub open spec fn row_stats(pixels: Seq<u16>, colors: Seq<u8>, raw_width: int, y: int, x0: int, x1: int, cfa: u8) -> (
    nat,
    nat,
)
    decreases x1 - x0,
{
    if x1 <= x0 {
        (0, 0)
    } else {
        let (sum, count) = row_stats(pixels, colors, raw_width, y, x0, x1 - 1, cfa);
        let i = row_major(raw_width, x1 - 1, y);
        if colors[i] == cfa {
            (sum + pixels[i] as nat, count + 1)
        } else {
            (sum, count)
        }
    }
}

/// Matching samples in a footprint: rows `y0..y1`, columns `x0..x1`.
pub open spec fn block_stats(
    pixels: Seq<u16>,
    colors: Seq<u8>,
    raw_width: int,
    x0: int,
    x1: int,
    y0: int,
    y1: int,
    cfa: u8,
) -> (nat, nat)
    decreases y1 - y0,
{
    if y1 <= y0 {
        (0, 0)
    } else {
        let (sum, count) = block_stats(pixels, colors, raw_width, x0, x1, y0, y1 - 1, cfa);
        let (row_sum, row_count) = row_stats(pixels, colors, raw_width, y1 - 1, x0, x1, cfa);
        (sum + row_sum, count + row_count)
    }
}

proof fn lemma_row_stats_bound(pixels: Seq<u16>, colors: Seq<u8>, raw_width: int, y: int, x0: int, x1: int, cfa: u8)
    ensures
        row_stats(pixels, colors, raw_width, y, x0, x1, cfa).1 <= if x1 > x0 { x1 - x0 } else { 0 },
        row_stats(pixels, colors, raw_width, y, x0, x1, cfa).0 <= 65535 * row_stats(
            pixels,
            colors,
            raw_width,
            y,
            x0,
            x1,
            cfa,
        ).1,
    decreases x1 - x0,
{
    if x1 > x0 {
        lemma_row_stats_bound(pixels, colors, raw_width, y, x0, x1 - 1, cfa);
    }
}

proof fn lemma_block_stats_bound(
    pixels: Seq<u16>,
    colors: Seq<u8>,
    raw_width: int,
    x0: int,
    x1: int,
    y0: int,
    y1: int,
    cfa: u8,
)
    requires
        x0 <= x1,
    ensures
        block_stats(pixels, colors, raw_width, x0, x1, y0, y1, cfa).1 <= (if y1 > y0 { y1 - y0 } else { 0 }) * (x1
            - x0),
        block_stats(pixels, colors, raw_width, x0, x1, y0, y1, cfa).0 <= 65535 * block_stats(
            pixels,
            colors,
            raw_width,
            x0,
            x1,
            y0,
            y1,
            cfa,
        ).1,
    decreases y1 - y0,
{
    if y1 > y0 {
        lemma_block_stats_bound(pixels, colors, raw_width, x0, x1, y0, y1 - 1, cfa);
        lemma_row_stats_bound(pixels, colors, raw_width, y1 - 1, x0, x1, cfa);
        assert((if y1 - 1 > y0 { y1 - 1 - y0 } else { 0 }) * (x1 - x0) + (x1 - x0) == (y1 - y0) * (x1 - x0))
            by (nonlinear_arith)
            requires
                y1 > y0,
        ;
    }
}

/// The layout of a proxy over a sensor region: the image, the region, the
/// output size and the CFA period.
#[derive(Clone, Copy, Debug, PartialEq, Eq, Structural)]
pub struct CfaProxyLayout {
    pub raw_width: u32,
    pub raw_height: u32,
    pub x: u32,
    pub y: u32,
    pub region_width: u32,
    pub region_height: u32,
    pub width: u32,
    pub height: u32,
    pub cfa_period: u32,
}

impl CfaProxyLayout {
    /// The layout is one the proxy builders produce: a non-empty region
    /// inside an image whose pixel indices fit in `u32`, an output no
    /// larger than the region, and a Bayer or X-Trans period.
    pub open spec fn valid(self) -> bool {
        &&& self.raw_width >= 1 && self.raw_height >= 1
        &&& self.raw_width * self.raw_height <= u32::MAX
        &&& self.x + self.region_width <= self.raw_width
        &&& self.y + self.region_height <= self.raw_height
        &&& 1 <= self.width <= self.region_width
        &&& 1 <= self.height <= self.region_height
        &&& (self.cfa_period == 2 || self.cfa_period == 6)
        &&& self.x + spec_min(self.width as int, self.cfa_period as int) - 1 <= u32::MAX
        &&& self.y + spec_min(self.height as int, self.cfa_period as int) - 1 <= u32::MAX
    }
}

/// The repeat of a CFA pattern: 2 for Bayer, 6 for X-Trans.
pub open spec fn spec_cfa_period(kind: CfaKind) -> u32 {
    match kind {
        CfaKind::Bayer => 2,
        CfaKind::XTrans => 6,
    }
}

pub fn cfa_period(kind: CfaKind) -> (r: u32)
    ensures
        r == spec_cfa_period(kind),
{
    match kind {
        CfaKind::Bayer => 2,
        CfaKind::XTrans => 6,
    }
}

/// A proxy edge for a region edge `source` and a wanted edge `target`: the
/// whole edge when `target` reaches it, otherwise `target` rounded down to
/// a whole number of CFA periods (at least one), at most `source`.
pub open spec fn spec_phase_aligned_dimension(source: u32, target: u32, period: u32) -> u32 {
    if target >= source {
        source
    } else {
        spec_min(spec_max((target / period) as int, 1) * period, source as int) as u32
    }
}

pub fn phase_aligned_dimension(source: u32, target: u32, period: u32) -> (r: u32)
    requires
        period > 0,
    ensures
        r == spec_phase_aligned_dimension(source, target, period),
        r <= source,
        r % period == 0 || r == source,
        source >= 1 ==> r >= 1,
{
    if target >= source {
        return source;
    }
    let periods = if target / period >= 1 { target / period } else { 1 };
    proof {
        assert(periods * period <= spec_max(target as int, period as int)) by (nonlinear_arith)
            requires
                periods == spec_max((target / period) as int, 1),
                period > 0,
        ;
    }
    let aligned = periods * period;
    if aligned <= source {
        proof {
            assert(aligned % period == 0 && aligned >= 1) by (nonlinear_arith)
                requires
                    aligned == periods * period,
                    period > 0,
                    periods >= 1,
            ;
        }
        aligned
    } else {
        source
    }
}

/// What a proxy of a region of the image is built from: the whole image as
/// it is, a native crop of the region, or an averaged proxy with the given
/// layout.
#[derive(Clone, Copy, Debug, PartialEq, Eq, Structural)]
pub enum RegionProxyPlan {
    Whole,
    Crop { x: u32, y: u32, width: u32, height: u32 },
    Proxy(CfaProxyLayout),
}

/// The wanted proxy edge for a region edge: the edge scaled by
/// `edge_limit / longest` in double precision, rounded down, at least one
/// pixel and at most `u32::MAX`.
pub open spec fn proxy_target_edge(edge: u32, edge_limit: u32, longest: u32) -> u32 {
    let scaled = double_scaled_floor(edge as nat, edge_limit as nat, longest as nat);
    if scaled < 1 {
        1
    } else if scaled > u32::MAX {
        u32::MAX
    } else {
        scaled as u32
    }
}

fn proxy_target_edge_of(edge: u32, edge_limit: u32, longest: u32) -> (r: u32)
    requires
        1 <= edge_limit <= longest,
        edge <= longest,
    ensures
        r == proxy_target_edge(edge, edge_limit, longest),
{
    let scaled = floor_scaled_edge(edge, edge_limit, longest);
    if scaled < 1 {
        1
    } else if scaled > u32::MAX as u128 {
        u32::MAX
    } else {
        scaled as u32
    }
}

/// The plan for a proxy of region `(x, y, width, height)` of a
/// `raw_width` x `raw_height` sensor with the given CFA, whose longer edge
/// may be at most `max_edge` (at least 1): the region is clamped into the
/// image; a region within the edge limit is kept native (the whole image
/// when it covers it), otherwise each edge is scaled to its
/// [`proxy_target_edge`] and phase-aligned.
pub open spec fn spec_plan_region_proxy(
    raw_width: u32,
    raw_height: u32,
    kind: CfaKind,
    x: u32,
    y: u32,
    width: u32,
    height: u32,
    max_edge: u32,
) -> RegionProxyPlan {
    let (cx, cy, cw, ch) = clamped_region(raw_width, raw_height, x, y, width, height);
    let edge = spec_max(max_edge as int, 1);
    let period = spec_cfa_period(kind);
    if spec_max(cw as int, ch as int) <= edge {
        if cx == 0 && cy == 0 && cw == raw_width && ch == raw_height {
            RegionProxyPlan::Whole
        } else {
            RegionProxyPlan::Crop { x: cx, y: cy, width: cw, height: ch }
        }
    } else {
        RegionProxyPlan::Proxy(
            CfaProxyLayout {
                raw_width,
                raw_height,
                x: cx,
                y: cy,
                region_width: cw,
                region_height: ch,
                width: spec_phase_aligned_dimension(
                    cw,
                    proxy_target_edge(cw, edge as u32, spec_max(cw as int, ch as int) as u32),
                    period,
                ),
                height: spec_phase_aligned_dimension(
                    ch,
                    proxy_target_edge(ch, edge as u32, spec_max(cw as int, ch as int) as u32),
                    period,
                ),
                cfa_period: period,
            },
        )
    }
}

pub fn plan_region_proxy(
    raw_width: u32,
    raw_height: u32,
    kind: CfaKind,
    x: u32,
    y: u32,
    width: u32,
    height: u32,
    max_edge: u32,
) -> (r: RegionProxyPlan)
    ensures
        r == spec_plan_region_proxy(raw_width, raw_height, kind, x, y, width, height, max_edge),
        r matches RegionProxyPlan::Proxy(layout) ==> {
            &&& layout.width <= layout.region_width && layout.height <= layout.region_height
            &&& (layout.width % layout.cfa_period == 0 || layout.width == layout.region_width)
            &&& (layout.height % layout.cfa_period == 0 || layout.height == layout.region_height)
            &&& (raw_width >= 1 && raw_height >= 1 && raw_width * raw_height <= u32::MAX) ==> layout.valid()
        },
{
    let (cx, cy, cw, ch) = clamp_region(raw_width, raw_height, x, y, width, height);
    let edge = if max_edge >= 1 { max_edge } else { 1 };
    let longest = if cw >= ch { cw } else { ch };
    if longest <= edge {
        if cx == 0 && cy == 0 && cw == raw_width && ch == raw_height {
            return RegionProxyPlan::Whole;
        }
        return RegionProxyPlan::Crop { x: cx, y: cy, width: cw, height: ch };
    }
    let period = cfa_period(kind);
    let target_width = proxy_target_edge_of(cw, edge, longest);
    let target_height = proxy_target_edge_of(ch, edge, longest);
    let proxy_width = phase_aligned_dimension(cw, target_width, period);
    let proxy_height = phase_aligned_dimension(ch, target_height, period);
    RegionProxyPlan::Proxy(
        CfaProxyLayout {
            raw_width,
            raw_height,
            x: cx,
            y: cy,
            region_width: cw,
            region_height: ch,
            width: proxy_width,
            height: proxy_height,
            cfa_period: period,
        },
    )
}

/// What a proxy of a region of a developed RGB raster is built from: a
/// native crop of the region, or the region resampled to an output size.
#[derive(Clone, Copy, Debug, PartialEq, Eq, Structural)]
pub enum RasterProxyPlan {
    Crop { x: u32, y: u32, width: u32, height: u32 },
    Scaled { x: u32, y: u32, region_width: u32, region_height: u32, width: u32, height: u32 },
}

/// The output edge of a resampled raster region: the edge scaled by
/// `edge_limit / longest` in double precision, rounded to the nearest pixel
/// (halves away from zero), at least one pixel and at most `u32::MAX`.
pub open spec fn raster_output_edge(edge: u32, edge_limit: u32, longest: u32) -> u32 {
    let scaled = double_scaled_edge(edge as nat, edge_limit as nat, longest as nat);
    if scaled < 1 {
        1
    } else if scaled > u32::MAX {
        u32::MAX
    } else {
        scaled as u32
    }
}

fn raster_output_edge_of(edge: u32, edge_limit: u32, longest: u32) -> (r: u32)
    requires
        1 <= edge_limit <= longest,
        edge <= longest,
    ensures
        r == raster_output_edge(edge, edge_limit, longest),
{
    let scaled = round_scaled_edge(edge, edge_limit, longest);
    if scaled < 1 {
        1
    } else if scaled > u32::MAX as u128 {
        u32::MAX
    } else {
        scaled as u32
    }
}

/// The plan for a proxy of region `(x, y, width, height)` of a developed
/// `raw_width` x `raw_height` RGB raster whose longer edge may be at most
/// `max_edge` (at least 1): the region is clamped into the image; a region
/// within the edge limit is cropped natively, otherwise each edge is
/// scaled to its [`raster_output_edge`].
pub open spec fn spec_plan_raster_region_proxy(
    raw_width: u32,
    raw_height: u32,
    x: u32,
    y: u32,
    width: u32,
    height: u32,
    max_edge: u32,
) -> RasterProxyPlan {
    let (cx, cy, cw, ch) = clamped_region(raw_width, raw_height, x, y, width, height);
    let edge = spec_max(max_edge as int, 1);
    let longest = spec_max(cw as int, ch as int);
    if longest <= edge {
        RasterProxyPlan::Crop { x: cx, y: cy, width: cw, height: ch }
    } else {
        RasterProxyPlan::Scaled {
            x: cx,
            y: cy,
            region_width: cw,
            region_height: ch,
            width: raster_output_edge(cw, edge as u32, longest as u32),
            height: raster_output_edge(ch, edge as u32, longest as u32),
        }
    }
}

pub fn plan_raster_region_proxy(
    raw_width: u32,
    raw_height: u32,
    x: u32,
    y: u32,
    width: u32,
    height: u32,
    max_edge: u32,
) -> (r: RasterProxyPlan)
    ensures
        r == spec_plan_raster_region_proxy(raw_width, raw_height, x, y, width, height, max_edge),
{
    let (cx, cy, cw, ch) = clamp_region(raw_width, raw_height, x, y, width, height);
    let edge = if max_edge >= 1 { max_edge } else { 1 };
    let longest = if cw >= ch { cw } else { ch };
    if longest <= edge {
        return RasterProxyPlan::Crop { x: cx, y: cy, width: cw, height: ch };
    }
    RasterProxyPlan::Scaled {
        x: cx,
        y: cy,
        region_width: cw,
        region_height: ch,
        width: raster_output_edge_of(cw, edge, longest),
        height: raster_output_edge_of(ch, edge, longest),
    }
}

/// The position searched at step `(radius, dy, dx)` of the nearest-sample
/// search: the centre plus the offset, clamped into the image.
pub open spec fn search_index(raw_width: u32, raw_height: u32, center_x: int, center_y: int, dy: int, dx: int) -> int {
    row_major(
        raw_width as int,
        clamp_int(center_x + dx, 0, raw_width - 1),
        clamp_int(center_y + dy, 0, raw_height - 1),
    )
}

/// The nearest-sample search from step `(radius, dy, dx)` on: square rings
/// of growing radius up to `max_radius`, each scanned row by row and
/// column by column, skipping a ring's interior; the first position of
/// colour `cfa`.
pub open spec fn nearest_search(
    colors: Seq<u8>,
    raw_width: u32,
    raw_height: u32,
    center_x: int,
    center_y: int,
    cfa: u8,
    max_radius: int,
    radius: int,
    dy: int,
    dx: int,
) -> Option<int>
    decreases max_radius + 1 - radius, radius - dy + 1, radius - dx + 1,
{
    if radius > max_radius || radius < 0 {
        None
    } else if dy > radius {
        nearest_search(colors, raw_width, raw_height, center_x, center_y, cfa, max_radius, radius + 1, -(radius + 1), -(radius + 1))
    } else if dx > radius {
        nearest_search(colors, raw_width, raw_height, center_x, center_y, cfa, max_radius, radius, dy + 1, -radius)
    } else if dy < -radius || dx < -radius {
        None
    } else if radius > 0 && dx != radius && dx != -radius && dy != radius && dy != -radius {
        nearest_search(colors, raw_width, raw_height, center_x, center_y, cfa, max_radius, radius, dy, dx + 1)
    } else if colors[search_index(raw_width, raw_height, center_x, center_y, dy, dx)] == cfa {
        Some(search_index(raw_width, raw_height, center_x, center_y, dy, dx))
    } else {
        nearest_search(colors, raw_width, raw_height, center_x, center_y, cfa, max_radius, radius, dy, dx + 1)
    }
}

/// The nearest sample of colour `cfa` to the centre, or the centre itself.
pub open spec fn spec_nearest_cfa_sample(
    colors: Seq<u8>,
    raw_width: u32,
    raw_height: u32,
    center_x: int,
    center_y: int,
    cfa: u8,
    search_radius: u32,
) -> int {
    let max_radius = if search_radius >= 1 { search_radius as int } else { 1 };
    match nearest_search(colors, raw_width, raw_height, center_x, center_y, cfa, max_radius, 0, 0, 0) {
        Some(i) => i,
        None => row_major(raw_width as int, center_x, center_y),
    }
}

/// Finds the nearest sample of colour `cfa` around a centre, ring by ring
/// up to `search_radius` (at least 1), or gives the centre.
pub fn nearest_cfa_sample(
    colors: &CompactPixelMap<u8>,
    raw_width: u32,
    raw_height: u32,
    center_x: u32,
    center_y: u32,
    cfa: u8,
    search_radius: u32,
) -> (r: usize)
    requires
        raw_width >= 1,
        raw_height >= 1,
        raw_width * raw_height <= u32::MAX,
        colors.spec_len() == raw_width * raw_height,
        colors.spec_width() == raw_width,
        center_x < raw_width,
        center_y < raw_height,
        search_radius <= 6,
    ensures
        r == spec_nearest_cfa_sample(
            colors.pixels(),
            raw_width,
            raw_height,
            center_x as int,
            center_y as int,
            cfa,
            search_radius,
        ),
        r < raw_width * raw_height,
{
    let max_x = raw_width as i64 - 1;
    let max_y = raw_height as i64 - 1;
    let max_radius: i64 = if search_radius >= 1 { search_radius as i64 } else { 1 };
    let ghost colors_seq = colors.pixels();
    let ghost target = nearest_search(
        colors_seq,
        raw_width,
        raw_height,
        center_x as int,
        center_y as int,
        cfa,
        max_radius as int,
        0,
        0,
        0,
    );
    let mut radius: i64 = 0;
    while radius <= max_radius
        invariant
            raw_width >= 1,
            raw_height >= 1,
            raw_width * raw_height <= u32::MAX,
            colors.spec_len() == raw_width * raw_height,
            colors_seq == colors.pixels(),
            max_radius as int == (if search_radius >= 1 { search_radius as int } else { 1 }),
            target == nearest_search(colors_seq, raw_width, raw_height, center_x as int, center_y as int, cfa, max_radius as int, 0, 0, 0),
            max_x == raw_width - 1,
            max_y == raw_height - 1,
            1 <= max_radius <= 6,
            0 <= radius <= max_radius + 1,
            target == nearest_search(
                colors_seq,
                raw_width,
                raw_height,
                center_x as int,
                center_y as int,
                cfa,
                max_radius as int,
                radius as int,
                -radius as int,
                -radius as int,
            ),
        decreases max_radius + 1 - radius,
    {
        let mut dy: i64 = -radius;
        while dy <= radius
            invariant
                raw_width >= 1,
                raw_height >= 1,
                raw_width * raw_height <= u32::MAX,
                colors.spec_len() == raw_width * raw_height,
                colors_seq == colors.pixels(),
                max_radius as int == (if search_radius >= 1 { search_radius as int } else { 1 }),
                target == nearest_search(colors_seq, raw_width, raw_height, center_x as int, center_y as int, cfa, max_radius as int, 0, 0, 0),
                max_x == raw_width - 1,
                max_y == raw_height - 1,
                1 <= max_radius <= 6,
                0 <= radius <= max_radius,
                -radius <= dy <= radius + 1,
                target == nearest_search(
                    colors_seq,
                    raw_width,
                    raw_height,
                    center_x as int,
                    center_y as int,
                    cfa,
                    max_radius as int,
                    radius as int,
                    dy as int,
                    -radius as int,
                ),
            decreases radius + 1 - dy,
        {
            let mut dx: i64 = -radius;
            while dx <= radius
                invariant
                    raw_width >= 1,
                    raw_height >= 1,
                    raw_width * raw_height <= u32::MAX,
                    colors.spec_len() == raw_width * raw_height,
                    colors_seq == colors.pixels(),
                    max_radius as int == (if search_radius >= 1 { search_radius as int } else { 1 }),
                    target == nearest_search(colors_seq, raw_width, raw_height, center_x as int, center_y as int, cfa, max_radius as int, 0, 0, 0),
                    max_x == raw_width - 1,
                    max_y == raw_height - 1,
                    1 <= max_radius <= 6,
                    0 <= radius <= max_radius,
                    -radius <= dy <= radius,
                    -radius <= dx <= radius + 1,
                    target == nearest_search(
                        colors_seq,
                        raw_width,
                        raw_height,
                        center_x as int,
                        center_y as int,
                        cfa,
                        max_radius as int,
                        radius as int,
                        dy as int,
                        dx as int,
                    ),
                decreases radius + 1 - dx,
            {
                if radius > 0 && dx != radius && dx != -radius && dy != radius && dy != -radius {
                    dx += 1;
                    continue;
                }
                let sx = clamp_i64(center_x as i64 + dx, 0, max_x);
                let sy = clamp_i64(center_y as i64 + dy, 0, max_y);
                proof {
                    assert(sy * raw_width + sx < raw_width * raw_height) by (nonlinear_arith)
                        requires
                            0 <= sy <= raw_height - 1,
                            0 <= sx <= raw_width - 1,
                    ;
                }
                let index = (sy as u32 * raw_width + sx as u32) as usize;
                if *colors.value_at(index) == cfa {
                    proof {
                        assert(index as int == search_index(raw_width, raw_height, center_x as int, center_y as int, dy as int, dx as int));
                        assert(colors_seq[index as int] == cfa);
                        assert(target == Some(index as int));
                    }
                    return index;
                }
                dx += 1;
            }
            dy += 1;
        }
        radius += 1;
    }
    proof {
        assert(center_y * raw_width + center_x < raw_width * raw_height) by (nonlinear_arith)
            requires
                center_y <= raw_height - 1,
                center_x <= raw_width - 1,
        ;
    }
    (center_y * raw_width + center_x) as usize
}


/// Sums and counts the samples of colour `cfa` in columns `x0..x1` of rows
/// `y0..y1`.
pub fn footprint_stats(
    pixels: &[u16],
    colors: &CompactPixelMap<u8>,
    raw_width: u32,
    raw_height: u32,
    x0: u32,
    x1: u32,
    y0: u32,
    y1: u32,
    cfa: u8,
) -> (r: (u64, u64))
    requires
        x0 <= x1 <= raw_width,
        y0 <= y1 <= raw_height,
        raw_width * raw_height <= u32::MAX,
        pixels@.len() == raw_width * raw_height,
        colors.spec_len() == raw_width * raw_height,
    ensures
        r.0 == block_stats(pixels@, colors.pixels(), raw_width as int, x0 as int, x1 as int, y0 as int, y1 as int, cfa).0,
        r.1 == block_stats(pixels@, colors.pixels(), raw_width as int, x0 as int, x1 as int, y0 as int, y1 as int, cfa).1,
{
    let ghost colors_seq = colors.pixels();
    let mut sum: u64 = 0;
    let mut count: u64 = 0;
    let mut sy: u32 = y0;
    while sy < y1
        invariant
            x0 <= x1 <= raw_width,
            y0 <= sy <= y1 <= raw_height,
            raw_width * raw_height <= u32::MAX,
            pixels@.len() == raw_width * raw_height,
            colors.spec_len() == raw_width * raw_height,
            colors_seq == colors.pixels(),
            (sum as nat, count as nat) == block_stats(pixels@, colors_seq, raw_width as int, x0 as int, x1 as int, y0 as int, sy as int, cfa),
            count <= (sy - y0) * (x1 - x0),
            sum <= 65535 * count,
        decreases y1 - sy,
    {
        let mut sx: u32 = x0;
        while sx < x1
            invariant
                x0 <= sx <= x1 <= raw_width,
                y0 <= sy < y1 <= raw_height,
                raw_width * raw_height <= u32::MAX,
                pixels@.len() == raw_width * raw_height,
                colors.spec_len() == raw_width * raw_height,
                colors_seq == colors.pixels(),
                ({
                    let (bs, bc) = block_stats(pixels@, colors_seq, raw_width as int, x0 as int, x1 as int, y0 as int, sy as int, cfa);
                    let (rs, rc) = row_stats(pixels@, colors_seq, raw_width as int, sy as int, x0 as int, sx as int, cfa);
                    sum == bs + rs && count == bc + rc
                }),
                count <= (sy - y0) * (x1 - x0) + (sx - x0),
                sum <= 65535 * count,
            decreases x1 - sx,
        {
            proof {
                assert(sy * raw_width + sx < raw_width * raw_height) by (nonlinear_arith)
                    requires
                        sy + 1 <= raw_height,
                        sx < raw_width,
                ;
                assert((sy - y0) * (x1 - x0) + (sx - x0) < raw_width * raw_height) by (nonlinear_arith)
                    requires
                        y0 <= sy < raw_height,
                        x0 <= sx < x1 <= raw_width,
                ;
            }
            let index = (sy * raw_width + sx) as usize;
            if *colors.value_at(index) == cfa {
                sum = sum + pixels[index] as u64;
                count = count + 1;
            }
            sx += 1;
        }
        sy += 1;
        proof {
            assert((sy - 1 - y0) * (x1 - x0) + (x1 - x0) == (sy - y0) * (x1 - x0)) by (nonlinear_arith);
        }
    }
    (sum, count)
}

/// The footprint of output column `px`: the source columns that the
/// partition gives it, offset by the region origin.
pub open spec fn proxy_span(origin: u32, index: u32, source_count: u32, output_count: u32) -> (int, int) {
    let (start, end) = spec_proxy_partition(index, source_count, output_count);
    (origin + start, origin + end)
}

/// The colour of output pixel `(px, py)`: the sensor colour at the
/// region origin plus the pixel's CFA phase.
pub open spec fn proxy_colour(colors: Seq<u8>, l: CfaProxyLayout, px: int, py: int) -> u8 {
    let phase_x = spec_min(l.x + px % (l.cfa_period as int), l.raw_width - 1);
    let phase_y = spec_min(l.y + py % (l.cfa_period as int), l.raw_height - 1);
    colors[row_major(l.raw_width as int, phase_x, phase_y)]
}

/// Output pixel `(px, py)`: the mean (rounded down) of the footprint's
/// samples of the pixel's colour, or the nearest sample of that colour to
/// the footprint's centre when there is none.
pub open spec fn proxy_sample(pixels: Seq<u16>, colors: Seq<u8>, l: CfaProxyLayout, px: int, py: int) -> u16 {
    let cfa = proxy_colour(colors, l, px, py);
    let (fx0, fx1) = proxy_span(l.x, px as u32, l.region_width, l.width);
    let (fy0, fy1) = proxy_span(l.y, py as u32, l.region_height, l.height);
    let (sum, count) = block_stats(pixels, colors, l.raw_width as int, fx0, fx1, fy0, fy1, cfa);
    if count == 0 {
        let center_x = spec_min(fx0 + (fx1 - fx0) / 2, l.raw_width - 1);
        let center_y = spec_min(fy0 + (fy1 - fy0) / 2, l.raw_height - 1);
        pixels[spec_nearest_cfa_sample(colors, l.raw_width, l.raw_height, center_x, center_y, cfa, l.cfa_period)]
    } else {
        (sum / count) as u16
    }
}

/// The proxy's samples, row-major.
pub open spec fn proxy_samples(pixels: Seq<u16>, colors: Seq<u8>, l: CfaProxyLayout) -> Seq<u16> {
    Seq::new((l.width * l.height) as nat, |i: int| proxy_sample(pixels, colors, l, i % (l.width as int), i / (l.width as int)))
}

/// The proxy's colours, row-major.
pub open spec fn proxy_colours(colors: Seq<u8>, l: CfaProxyLayout) -> Seq<u8> {
    Seq::new((l.width * l.height) as nat, |i: int| proxy_colour(colors, l, i % (l.width as int), i / (l.width as int)))
}

/// Shrinks a sensor region to `width` x `height` without mixing colours:
/// each output pixel keeps the colour of its CFA phase at the region origin
/// and averages the samples of that colour in its footprint.
pub fn proxy_cfa_samples(pixels: &[u16], colors: &CompactPixelMap<u8>, layout: CfaProxyLayout) -> (r: (Vec<u16>, Vec<u8>))
    requires
        layout.valid(),
        pixels@.len() == layout.raw_width * layout.raw_height,
        colors.spec_width() == layout.raw_width,
        colors.spec_len() == layout.raw_width * layout.raw_height,
    ensures
        r.0@ == proxy_samples(pixels@, colors.pixels(), layout),
        r.1@ == proxy_colours(colors.pixels(), layout),
{
    let l = layout;
    let ghost colors_seq = colors.pixels();
    let ghost expected = proxy_samples(pixels@, colors_seq, l);
    let ghost expected_colours = proxy_colours(colors_seq, l);
    let mut samples: Vec<u16> = Vec::new();
    let mut colours: Vec<u8> = Vec::new();
    let mut py: u32 = 0;
    while py < l.height
        invariant
            l == layout,
            l.valid(),
            pixels@.len() == l.raw_width * l.raw_height,
            colors.spec_width() == l.raw_width,
            colors.spec_len() == l.raw_width * l.raw_height,
            colors_seq == colors.pixels(),
            expected == proxy_samples(pixels@, colors_seq, l),
            expected_colours == proxy_colours(colors_seq, l),
            0 <= py <= l.height,
            samples@ == expected.take(py * l.width),
            colours@ == expected_colours.take(py * l.width),
        decreases l.height - py,
    {
        let (sy0, sy1) = proxy_partition(py, l.region_height, l.height);
        let fy0 = l.y + sy0;
        let fy1 = l.y + sy1;
        proof {
            assert(py % l.cfa_period <= py && py % l.cfa_period < l.cfa_period) by (nonlinear_arith)
                requires
                    l.cfa_period > 0,
                    py >= 0,
            ;
        }
        let phase_y = {
            let p = l.y + py % l.cfa_period;
            if p <= l.raw_height - 1 { p } else { l.raw_height - 1 }
        };
        proof {
            assert(py * l.width + l.width <= l.width * l.height) by (nonlinear_arith)
                requires
                    py + 1 <= l.height,
            ;
        }
        let mut px: u32 = 0;
        while px < l.width
            invariant
                l == layout,
                l.valid(),
                pixels@.len() == l.raw_width * l.raw_height,
                colors.spec_width() == l.raw_width,
                colors.spec_len() == l.raw_width * l.raw_height,
                colors_seq == colors.pixels(),
                expected == proxy_samples(pixels@, colors_seq, l),
                expected_colours == proxy_colours(colors_seq, l),
                py < l.height,
                py * l.width + l.width <= l.width * l.height,
                (fy0 as int, fy1 as int) == proxy_span(l.y, py, l.region_height, l.height),
                fy0 < fy1 <= l.y + l.region_height,
                phase_y == spec_min(l.y + (py as int) % (l.cfa_period as int), l.raw_height - 1),
                0 <= px <= l.width,
                samples@ == expected.take(py * l.width + px),
                colours@ == expected_colours.take(py * l.width + px),
            decreases l.width - px,
        {
            let (sx0, sx1) = proxy_partition(px, l.region_width, l.width);
            let fx0 = l.x + sx0;
            let fx1 = l.x + sx1;
            proof {
                assert(px % l.cfa_period <= px && px % l.cfa_period < l.cfa_period) by (nonlinear_arith)
                    requires
                        l.cfa_period > 0,
                        px >= 0,
                ;
            }
            let phase_x = {
                let p = l.x + px % l.cfa_period;
                if p <= l.raw_width - 1 { p } else { l.raw_width - 1 }
            };
            proof {
                assert(phase_y * l.raw_width + phase_x < l.raw_width * l.raw_height) by (nonlinear_arith)
                    requires
                        phase_y <= l.raw_height - 1,
                        phase_x <= l.raw_width - 1,
                ;
            }
            let cfa = *colors.value_at((phase_y * l.raw_width + phase_x) as usize);
            let (sum, count) = footprint_stats(pixels, colors, l.raw_width, l.raw_height, fx0, fx1, fy0, fy1, cfa);
            proof {
                lemma_block_stats_bound(pixels@, colors_seq, l.raw_width as int, fx0 as int, fx1 as int, fy0 as int, fy1 as int, cfa);
            }
            let value = if count == 0 {
                let center_x = {
                    let c = fx0 + (fx1 - fx0) / 2;
                    if c <= l.raw_width - 1 { c } else { l.raw_width - 1 }
                };
                let center_y = {
                    let c = fy0 + (fy1 - fy0) / 2;
                    if c <= l.raw_height - 1 { c } else { l.raw_height - 1 }
                };
                let index = nearest_cfa_sample(colors, l.raw_width, l.raw_height, center_x, center_y, cfa, l.cfa_period);
                pixels[index]
            } else {
                proof {
                    assert(sum / count <= 65535) by (nonlinear_arith)
                        requires
                            sum <= 65535 * count,
                            count > 0,
                    ;
                }
                (sum / count) as u16
            };
            proof {
                lemma_row_major_join(px as int, py as int, l.width as int);
                assert(value == expected[py * l.width + px]);
                assert(cfa == expected_colours[py * l.width + px]);
                assert(expected.take(py * l.width + px + 1) =~= expected.take(py * l.width + px).push(value));
                assert(expected_colours.take(py * l.width + px + 1) =~= expected_colours.take(py * l.width + px).push(cfa));
            }
            samples.push(value);
            colours.push(cfa);
            px += 1;
        }
        py += 1;
        proof {
            assert((py - 1) * l.width + l.width == py * l.width) by (nonlinear_arith);
        }
    }
    proof {
        assert(l.height * l.width == l.width * l.height) by (nonlinear_arith);
        assert(expected.take(l.height * l.width) =~= expected);
        assert(expected_colours.take(l.height * l.width) =~= expected_colours);
    }
    (samples, colours)
}


/// Rows `y..y+height` of a row-major buffer with rows `stride` apart,
/// columns `x..x+width` of each.
pub open spec fn strided_rows<T>(source: Seq<T>, stride: int, x: int, y: int, width: int, height: int) -> Seq<T> {
    Seq::new(
        (width * height) as nat,
        |i: int| source[(y + i / width) * stride + x + i % width],
    )
}

/// Copies `height` rows of `width` values starting at `(x, y)` out of a
/// row-major buffer with rows `stride` apart.
pub fn copy_rows<T: Copy>(source: &[T], stride: usize, x: usize, y: usize, width: usize, height: usize) -> (r: Vec<T>)
    requires
        height > 0 ==> (y + height - 1) * stride + x + width <= source@.len(),
        y + height <= usize::MAX,
        width * height <= usize::MAX,
    ensures
        r@ == strided_rows(source@, stride as int, x as int, y as int, width as int, height as int),
{
    let len = source.len();
    let ghost expected = strided_rows(source@, stride as int, x as int, y as int, width as int, height as int);
    let mut out: Vec<T> = Vec::new();
    let mut row: usize = 0;
    while row < height
        invariant
            len == source@.len(),
            height > 0 ==> (y + height - 1) * stride + x + width <= len,
            y + height <= usize::MAX,
            width * height <= usize::MAX,
            expected == strided_rows(source@, stride as int, x as int, y as int, width as int, height as int),
            0 <= row <= height,
            out@ == expected.take(row * width),
        decreases height - row,
    {
        proof {
            assert((y + row) * stride <= (y + height - 1) * stride) by (nonlinear_arith)
                requires
                    row <= height - 1,
                    stride >= 0,
            ;
            assert(row * width + width <= width * height) by (nonlinear_arith)
                requires
                    row + 1 <= height,
            ;
            assert((y + row) * stride + x + width <= len);
        }
        let start = (y + row) * stride + x;
        let mut c: usize = 0;
        while c < width
            invariant
                len == source@.len(),
                start + width <= len,
                expected == strided_rows(source@, stride as int, x as int, y as int, width as int, height as int),
                start == (y + row) * stride + x,
                row < height,
                row * width + width <= width * height,
                0 <= c <= width,
                out@ == expected.take(row * width + c),
            decreases width - c,
        {
            proof {
                lemma_row_major_join(c as int, row as int, width as int);
                assert(expected.take(row * width + c + 1) =~= expected.take(row * width + c).push(
                    expected[row * width + c],
                ));
            }
            out.push(source[start + c]);
            c += 1;
        }
        row += 1;
        proof {
            assert((row - 1) * width + width == row * width) by (nonlinear_arith);
        }
    }
    proof {
        assert(height * width == width * height) by (nonlinear_arith);
        assert(expected.take(height * width) =~= expected);
    }
    out
}

/// The crop fits the `u32` offsets with which its rows are addressed:
/// samples `(row * image_width + x) * channels`.
pub open spec fn ai_crop_addressable(image_width: u32, x: u32, y: u32, height: u32, channels: int) -> bool {
    height > 0 ==> ((y + height - 1) * image_width + x) * channels <= u32::MAX
}

/// The denoised samples of a crop of the image they were made for: the
/// Bayer samples or the RGB triplets of the region.
pub fn crop_ai_denoised(image: &AiDenoisedImage, x: u32, y: u32, width: u32, height: u32) -> (r: Option<AiDenoisedImage>)
    requires
        image.spec_is_valid_for(image.width, image.height),
        width >= 1,
        height >= 1,
        x + width <= image.width,
        y + height <= image.height,
        ai_crop_addressable(image.width, x, y, height, if image.raw_cfa16@.len() > 0 { 1 } else { 3 }),
        image.raw_cfa16@.len() == 0 ==> image.width * image.height * 3 <= usize::MAX,
    ensures
        r matches Some(cropped) && cropped.width == width && cropped.height == height && (if image.raw_cfa16@.len() > 0 {
            cropped.raw_cfa16@ == strided_rows(image.raw_cfa16@, image.width as int, x as int, y as int, width as int, height as int)
                && cropped.rgb16f@.len() == 0
        } else {
            cropped.rgb16f@ == strided_rows(
                image.rgb16f@,
                3 * image.width,
                3 * x,
                y as int,
                3 * width,
                height as int,
            ) && cropped.raw_cfa16@.len() == 0
        }),
{
    let w = image.width as usize;
    proof {
        assert((y + height - 1) * image.width + x + width <= image.width * image.height) by (nonlinear_arith)
            requires
                y + height <= image.height,
                x + width <= image.width,
                height >= 1,
        ;
        assert(width * height <= image.width * image.height) by (nonlinear_arith)
            requires
                width <= image.width,
                height <= image.height,
        ;
    }
    match image.bayer_cfa() {
        Some(cfa) => {
            let data = copy_rows(cfa, w, x as usize, y as usize, width as usize, height as usize);
            match AiDenoisedImage::new_bayer_cfa(width, height, data) {
                Ok(cropped) => Some(cropped),
                Err(_) => None,
            }
        },
        None => {
            let rgb = image.rgb16f.as_slice();
            proof {
                assert(3 * ((y + height - 1) * image.width + x + width) <= 3 * (image.width * image.height)) by (nonlinear_arith)
                    requires
                        (y + height - 1) * image.width + x + width <= image.width * image.height,
                ;
                assert((y + height - 1) * (3 * image.width) + 3 * x + 3 * width == 3 * ((y + height - 1) * image.width + x + width)) by (nonlinear_arith);
                assert((3 * width) * height <= image.width * image.height * 3) by (nonlinear_arith)
                    requires
                        width * height <= image.width * image.height,
                ;
                assert(3 * image.width <= image.width * image.height * 3) by (nonlinear_arith)
                    requires
                        image.height >= 1,
                ;
            }
            let data = copy_rows(rgb, 3 * w, 3 * x as usize, y as usize, 3 * width as usize, height as usize);
            proof {
                assert(data@.len() == (3 * width) * height);
                assert(data@.len() == width * height * 3) by (nonlinear_arith)
                    requires
                        data@.len() == (3 * width) * height,
                ;
            }
            match AiDenoisedImage::new(width, height, data) {
                Ok(cropped) => Some(cropped),
                Err(_) => None,
            }
        },
    }
}


/// Sample `c` of pixel `(local_x, local_y)` of a padded three-channel tile:
/// that sample of the source pixel at the clamped position.
pub open spec fn padded_rgb_sample(
    source: Seq<u16>,
    source_width: u32,
    source_height: u32,
    tile: ExportTile,
    local_x: int,
    local_y: int,
    c: int,
) -> u16 {
    let gx = clamp_int(tile.global_origin_x + local_x, 0, source_width - 1);
    let gy = clamp_int(tile.global_origin_y + local_y, 0, source_height - 1);
    source[row_major(source_width as int, gx, gy) * 3 + c]
}

/// The samples of a padded three-channel tile, pixel by pixel.
pub open spec fn padded_rgb_samples(source: Seq<u16>, source_width: u32, source_height: u32, tile: ExportTile) -> Seq<u16> {
    Seq::new(
        (tile.padded_width * tile.padded_height * 3) as nat,
        |i: int|
            padded_rgb_sample(
                source,
                source_width,
                source_height,
                tile,
                (i / 3) % (tile.padded_width as int),
                (i / 3) / (tile.padded_width as int),
                i % 3,
            ),
    )
}

/// The three-channel samples of a padded tile; halo pixels outside the
/// image repeat the nearest edge pixel.
pub fn padded_rgb_pixels(source: &[u16], source_width: u32, source_height: u32, tile: ExportTile) -> (r: Vec<u16>)
    requires
        source_width >= 1,
        source_height >= 1,
        source@.len() == source_width * source_height * 3,
        tile.padded_width * tile.padded_height * 3 <= usize::MAX,
    ensures
        r@ == padded_rgb_samples(source@, source_width, source_height, tile),
{
    let len = source.len();
    let ghost expected = padded_rgb_samples(source@, source_width, source_height, tile);
    let width = tile.padded_width;
    let height = tile.padded_height;
    let max_x = source_width as i64 - 1;
    let max_y = source_height as i64 - 1;
    let mut out: Vec<u16> = Vec::new();
    let mut local_y: u32 = 0;
    while local_y < height
        invariant
            source_width >= 1,
            source_height >= 1,
            len == source@.len(),
            source@.len() == source_width * source_height * 3,
            width == tile.padded_width,
            height == tile.padded_height,
            width * height * 3 <= usize::MAX,
            max_x == source_width - 1,
            max_y == source_height - 1,
            expected == padded_rgb_samples(source@, source_width, source_height, tile),
            0 <= local_y <= height,
            out@ == expected.take(local_y * width * 3),
        decreases height - local_y,
    {
        let global_y = clamp_i64(tile.global_origin_y as i64 + local_y as i64, 0, max_y);
        proof {
            assert(local_y * width * 3 + width * 3 <= width * height * 3) by (nonlinear_arith)
                requires
                    local_y + 1 <= height,
                    width >= 0,
            ;
            assert((global_y * source_width + source_width) * 3 <= source_width * source_height * 3) by (nonlinear_arith)
                requires
                    0 <= global_y <= source_height - 1,
                    source_width >= 0,
            ;
        }
        let mut local_x: u32 = 0;
        while local_x < width
            invariant
                source_width >= 1,
                len == source@.len(),
                source@.len() == source_width * source_height * 3,
                width == tile.padded_width,
                height == tile.padded_height,
                max_x == source_width - 1,
                expected == padded_rgb_samples(source@, source_width, source_height, tile),
                local_y < height,
                local_y * width * 3 + width * 3 <= width * height * 3,
                global_y == clamp_int(tile.global_origin_y + local_y, 0, source_height - 1),
                0 <= global_y <= source_height - 1,
                (global_y * source_width + source_width) * 3 <= source_width * source_height * 3,
                0 <= local_x <= width,
                out@ == expected.take((local_y * width + local_x) * 3),
            decreases width - local_x,
        {
            let global_x = clamp_i64(tile.global_origin_x as i64 + local_x as i64, 0, max_x);
            proof {
                assert((global_y * source_width + global_x) * 3 + 3 <= (global_y * source_width + source_width) * 3) by (nonlinear_arith)
                    requires
                        global_x <= source_width - 1,
                ;
                assert(local_y * width * 3 == (local_y * width) * 3) by (nonlinear_arith);
            }
            let base = (global_y as usize * source_width as usize + global_x as usize) * 3;
            let ghost before = out@;
            let ghost k = (local_y * width + local_x) * 3;
            proof {
                lemma_row_major_join(local_x as int, local_y as int, width as int);
                assert forall|c: int| 0 <= c < 3 implies #[trigger] expected[k + c] == source@[base + c] by {
                    assert((k + c) / 3 == local_y * width + local_x) by (nonlinear_arith)
                        requires
                            k == (local_y * width + local_x) * 3,
                            0 <= c < 3,
                    ;
                    assert((k + c) % 3 == c) by (nonlinear_arith)
                        requires
                            k == (local_y * width + local_x) * 3,
                            0 <= c < 3,
                    ;
                }
            }
            out.push(source[base]);
            out.push(source[base + 1]);
            out.push(source[base + 2]);
            proof {
                assert(out@ =~= expected.take(k + 3)) by {
                    assert(expected.take(k + 3) =~= before.push(expected[k]).push(expected[k + 1]).push(expected[k + 2]));
                }
            }
            local_x += 1;
        }
        local_y += 1;
        proof {
            assert(((local_y - 1) * width + width) * 3 == local_y * width * 3) by (nonlinear_arith);
        }
    }
    proof {
        assert(height * width * 3 == width * height * 3) by (nonlinear_arith);
        assert(expected.take(height * width * 3) =~= expected);
    }
    out
}


/// The `u32` sample offsets with which a padded tile of `channels`
/// samples per pixel is filled stay in range.
pub open spec fn ai_tile_addressable(image: AiDenoisedImage, tile: ExportTile, channels: int) -> bool {
    &&& tile.padded_width * tile.padded_height > 0 ==> (tile.padded_width * tile.padded_height - 1) * channels
        <= u32::MAX
    &&& (image.width * image.height - 1) * channels <= u32::MAX
}

/// The denoised samples of a padded export tile: the Bayer samples or the
/// RGB triplets at the clamped source positions; none for an empty tile or
/// one whose sample count overflows.
pub fn padded_tile_ai_denoised(image: &AiDenoisedImage, tile: ExportTile) -> (r: Option<AiDenoisedImage>)
    requires
        image.spec_is_valid_for(image.width, image.height),
        image.width >= 1,
        image.height >= 1,
        image.raw_cfa16@.len() == 0 ==> image.width * image.height * 3 <= usize::MAX,
        ai_tile_addressable(*image, tile, if image.raw_cfa16@.len() > 0 { 1 } else { 3 }),
    ensures
        ({
            let channels = if image.raw_cfa16@.len() > 0 { 1int } else { 3int };
            (tile.padded_width * tile.padded_height * channels > usize::MAX || tile.padded_width == 0
                || tile.padded_height == 0) <==> r is None
        }),
        r matches Some(padded) ==> padded.width == tile.padded_width && padded.height == tile.padded_height && (
        if image.raw_cfa16@.len() > 0 {
            padded.raw_cfa16@ == padded_pixels(image.raw_cfa16@, image.width, image.height, tile) && padded.rgb16f@.len()
                == 0
        } else {
            padded.rgb16f@ == padded_rgb_samples(image.rgb16f@, image.width, image.height, tile)
                && padded.raw_cfa16@.len() == 0
        }),
{
    let pixels = match (tile.padded_width as usize).checked_mul(tile.padded_height as usize) {
        Some(p) => p,
        None => {
            proof {
                assert(tile.padded_width * tile.padded_height * 3 > usize::MAX) by (nonlinear_arith)
                    requires
                        tile.padded_width * tile.padded_height > usize::MAX,
                ;
            }
            return None;
        },
    };
    match image.bayer_cfa() {
        Some(cfa) => {
            let mut samples: Vec<u16> = Vec::new();
            fill_padded_raw_pixels(cfa, image.width, image.height, tile, &mut samples);
            match AiDenoisedImage::new_bayer_cfa(tile.padded_width, tile.padded_height, samples) {
                Ok(padded) => Some(padded),
                Err(_) => None,
            }
        },
        None => {
            if pixels.checked_mul(3).is_none() {
                return None;
            }
            let samples = padded_rgb_pixels(image.rgb16f.as_slice(), image.width, image.height, tile);
            match AiDenoisedImage::new(tile.padded_width, tile.padded_height, samples) {
                Ok(padded) => Some(padded),
                Err(_) => None,
            }
        },
    }
}

/// The denoised Bayer samples of a proxy: the same colour-preserving
/// averaging as the sensor samples, with a two-pixel phase and search
/// radius.
pub fn proxy_ai_denoised_cfa(image: &AiDenoisedImage, colors: &CompactPixelMap<u8>, layout: CfaProxyLayout) -> (r: Option<
    AiDenoisedImage,
>)
    requires
        layout.valid(),
        layout.cfa_period == 2,
        image.raw_cfa16@.len() > 0,
        image.spec_is_valid_for(layout.raw_width, layout.raw_height),
        colors.spec_width() == layout.raw_width,
        colors.spec_len() == layout.raw_width * layout.raw_height,
    ensures
        r matches Some(proxy) && proxy.width == layout.width && proxy.height == layout.height && proxy.raw_cfa16@
            == proxy_samples(image.raw_cfa16@, colors.pixels(), layout) && proxy.rgb16f@.len() == 0,
{
    let cfa = match image.bayer_cfa() {
        Some(cfa) => cfa,
        None => return None,
    };
    let (samples, _colours) = proxy_cfa_samples(cfa, colors, layout);
    proof {
        assert(layout.width * layout.height <= layout.raw_width * layout.raw_height) by (nonlinear_arith)
            requires
                layout.width <= layout.region_width,
                layout.height <= layout.region_height,
                layout.x + layout.region_width <= layout.raw_width,
                layout.y + layout.region_height <= layout.raw_height,
        ;
        assert(layout.width * layout.height > 0) by (nonlinear_arith)
            requires
                layout.width >= 1,
                layout.height >= 1,
        ;
    }
    match AiDenoisedImage::new_bayer_cfa(layout.width, layout.height, samples) {
        Ok(proxy) => Some(proxy),
        Err(_) => None,
    }
}


/// Quality of the colour denoiser.
#[derive(Clone, Copy, Debug, PartialEq, Eq, Structural)]
pub enum DenoiseQuality {
    Fast,
    Balanced,
    High,
}

/// Which spatial stages an export runs.
#[derive(Clone, Copy, Debug, PartialEq, Eq, Structural)]
pub struct HaloActivity {
    /// Colour denoising and its quality, when it runs.
    pub color_denoise: Option<DenoiseQuality>,
    /// Sharpening, texture, clarity or dehaze, globally or in a mask.
    pub local_spatial: bool,
    pub dehaze: bool,
    pub neon: bool,
    pub mask_blur: bool,
    pub focus_blur: bool,
    pub edge_glow: bool,
    pub pixelate: bool,
    pub glow: bool,
}

/// `value` rounded up to a multiple of 8.
pub open spec fn round_up_to_8(value: int) -> int {
    ((value + 7) / 8) * 8
}

/// The reach of colour denoising at a quality, or nothing.
pub open spec fn denoise_support(quality: Option<DenoiseQuality>) -> int {
    match quality {
        Some(DenoiseQuality::Fast) => COLOR_DENOISE_SUPPORT_FAST as int,
        Some(DenoiseQuality::Balanced) => COLOR_DENOISE_SUPPORT_BALANCED as int,
        Some(DenoiseQuality::High) => COLOR_DENOISE_SUPPORT_HIGH as int,
        None => 0,
    }
}

/// The reach of a stage that runs or not.
pub open spec fn stage_support(active: bool, support: u32) -> int {
    if active { support as int } else { 0 }
}

/// The reach of the creative stages after the blurs: the larger of
/// pixelate and edge glow.
pub open spec fn creative_support(pixelate: bool, edge_glow: bool) -> int {
    if pixelate { PIXELATE_SUPPORT as int } else if edge_glow { EDGE_GLOW_SUPPORT as int } else { 0 }
}

/// The summed reach of the stages that run.
pub open spec fn halo_support(a: HaloActivity) -> int {
    (HIGHLIGHT_RECONSTRUCTION_SUPPORT + DEMOSAIC_CHAIN_SUPPORT + TONE_GUIDE_SUPPORT + COLOR_MIXER_SUPPORT)
        + denoise_support(a.color_denoise) + stage_support(a.local_spatial, LOCAL_EFFECTS_SUPPORT) + stage_support(
        a.dehaze,
        DEHAZE_SUPPORT,
    ) + stage_support(a.neon, NEON_SUPPORT) + stage_support(a.mask_blur, MASK_BLUR_SUPPORT) + stage_support(
        a.focus_blur,
        FOCUS_BLUR_SUPPORT,
    ) + creative_support(a.pixelate, a.edge_glow) + stage_support(a.glow, GLOW_SUPPORT)
}

fn denoise_support_of(quality: Option<DenoiseQuality>) -> (r: u32)
    ensures
        r == denoise_support(quality),
        r <= COLOR_DENOISE_SUPPORT_HIGH,
{
    match quality {
        Some(DenoiseQuality::Fast) => COLOR_DENOISE_SUPPORT_FAST,
        Some(DenoiseQuality::Balanced) => COLOR_DENOISE_SUPPORT_BALANCED,
        Some(DenoiseQuality::High) => COLOR_DENOISE_SUPPORT_HIGH,
        None => 0,
    }
}

fn stage_support_of(active: bool, support: u32) -> (r: u32)
    ensures
        r == stage_support(active, support),
        r <= support,
{
    if active { support } else { 0 }
}

/// The halo an export needs: the reach of the stages that run, rounded up
/// to a multiple of 8; the edge-glow and pixelate reaches do not add up,
/// the larger counts.
pub fn export_tile_halo(activity: HaloActivity) -> (r: u32)
    ensures
        r == round_up_to_8(halo_support(activity)),
        MIN_EXPORT_TILE_HALO <= r <= EXPORT_TILE_HALO,
{
    let base: u32 = HIGHLIGHT_RECONSTRUCTION_SUPPORT + DEMOSAIC_CHAIN_SUPPORT + TONE_GUIDE_SUPPORT
        + COLOR_MIXER_SUPPORT;
    let denoise = denoise_support_of(activity.color_denoise);
    let local = stage_support_of(activity.local_spatial, LOCAL_EFFECTS_SUPPORT);
    let dehaze = stage_support_of(activity.dehaze, DEHAZE_SUPPORT);
    let neon = stage_support_of(activity.neon, NEON_SUPPORT);
    let blur = stage_support_of(activity.mask_blur, MASK_BLUR_SUPPORT);
    let focus = stage_support_of(activity.focus_blur, FOCUS_BLUR_SUPPORT);
    let creative: u32 = if activity.pixelate {
        PIXELATE_SUPPORT
    } else if activity.edge_glow {
        EDGE_GLOW_SUPPORT
    } else {
        0
    };
    let glow = stage_support_of(activity.glow, GLOW_SUPPORT);
    let support = base + denoise + local + dehaze + neon + blur + focus + creative + glow;
    round_up_8(support)
}

fn round_up_8(support: u32) -> (r: u32)
    requires
        61 <= support <= 653,
    ensures
        r == round_up_to_8(support as int),
        64 <= r <= 656,
{
    proof {
        lemma_round_up_to_8_bounds(support as int);
    }
    (support + 7) / 8 * 8
}

proof fn lemma_round_up_to_8_bounds(support: int)
    requires
        61 <= support <= 653,
    ensures
        64 <= round_up_to_8(support) <= 656,
        round_up_to_8(support) == (support + 7) / 8 * 8,
{
    assert(64 <= ((support + 7) / 8) * 8 <= 656) by (nonlinear_arith)
        requires
            61 <= support <= 653,
    ;
}

} // verus!
