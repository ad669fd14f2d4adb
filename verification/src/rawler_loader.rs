//! The integer rules of the DNG path: sensor limits, the preview fallback
//! limit, how a cropped and oriented DNG maps output pixels to sensor
//! positions, and the strip or tile layout checked before decoding.
use crate::libraw_loader::{MAX_SENSOR_EDGE, MAX_SENSOR_PIXELS};
use crate::raw_loader::CfaKind;
use crate::pixel_map::{lemma_row_major_bound, lemma_row_major_join, row_major};
use crate::text::{append_decimal, decimal, has_infix};
use vstd::prelude::*;
use vstd::string::StringExecFns;

verus! {

/// Longest edge for which a decoded preview may be rendered from the RAW.
pub const MAX_RAWLER_THUMBNAIL_FALLBACK_EDGE: usize = 2048;

pub fn rawler_thumbnail_fallback_allowed(width: usize, height: usize) -> (r: bool)
    ensures
        r == (width <= MAX_RAWLER_THUMBNAIL_FALLBACK_EDGE && height <= MAX_RAWLER_THUMBNAIL_FALLBACK_EDGE),
{
    width <= MAX_RAWLER_THUMBNAIL_FALLBACK_EDGE && height <= MAX_RAWLER_THUMBNAIL_FALLBACK_EDGE
}

/// Why a DNG layout was refused.
#[derive(Clone, Copy, Debug, PartialEq, Eq, Structural)]
pub enum DngLayoutError {
    /// An edge is zero or longer than the sensor limit.
    SensorEdgeOutOfRange { width: usize, height: usize },
    /// The pixel count overflows.
    PixelCountOverflow,
    /// The pixel count exceeds the sensor limit.
    TooManySensorPixels,
    /// The strip height is zero or longer than the sensor limit.
    InvalidStripHeight,
    /// The width of the tile grid overflows.
    TileWidthOverflow,
    /// The height of the tile grid overflows.
    TileHeightOverflow,
    /// The strip or tile offsets or byte counts do not match the layout.
    ChunkCountMismatch,
    /// A strip or tile is empty or extends past the file.
    ChunkOutsideFile,
    /// The samples-per-pixel tag is missing.
    MissingSampleCount,
    /// The photometric interpretation tag is missing.
    MissingPhotometric,
    /// Neither a one-channel CFA (32803) nor a three-channel linear raw
    /// (34892) image.
    UnsupportedPhotometric { photometric: usize, channels: usize },
    /// The samples are stored in separate planes.
    PlanarSamples,
    /// The CFA layout is not rectangular.
    NonRectangularCfa,
    /// A correction that the decoder does not apply is present.
    UnappliedCorrection(DngCorrection),
    /// The decoded image is not the size that the header promised.
    DecodedDimensionsMismatch,
    /// The decoded sensor is stored rotated.
    RotatedSensor,
    /// The sample count overflows.
    SampleCountOverflow,
    /// The decoded samples do not fill the image exactly.
    SampleCountMismatch,
    /// The black-level pattern has another channel count, is empty or is
    /// larger than the image.
    InvalidBlackPattern,
    /// The black-level pattern holds another number of levels than its
    /// size asks for.
    BlackSampleCountMismatch,
    /// The CFA pattern is neither 2 x 2 nor 6 x 6.
    UnsupportedCfaPattern,
    /// A CFA colour other than red, green or blue.
    NonRgbCfaColor,
    /// The colour counts are those of neither a Bayer nor an X-Trans tile.
    UnsupportedCfaCounts,
    /// A 2 x 2 pattern whose first colour repeats along a row or column.
    NonBayerCfa,
}

/// A DNG correction tag that the decoder leaves unapplied.
#[derive(Clone, Copy, Debug, PartialEq, Eq, Structural)]
pub enum DngCorrection {
    OpcodeList1,
    OpcodeList3,
    BlackLevelDeltaH,
    BlackLevelDeltaV,
}

pub open spec fn spec_sensor_dimensions(width: usize, height: usize) -> Result<usize, DngLayoutError> {
    if !(width > 0 && height > 0 && width <= MAX_SENSOR_EDGE && height <= MAX_SENSOR_EDGE) {
        Err(DngLayoutError::SensorEdgeOutOfRange { width, height })
    } else if width * height > usize::MAX {
        Err(DngLayoutError::PixelCountOverflow)
    } else if width * height > MAX_SENSOR_PIXELS {
        Err(DngLayoutError::TooManySensorPixels)
    } else {
        Ok((width * height) as usize)
    }
}

/// The pixel count of a sensor, refused for an empty or oversized one.
pub fn sensor_dimensions(width: usize, height: usize) -> (r: Result<usize, DngLayoutError>)
    ensures
        r == spec_sensor_dimensions(width, height),
{
    if !(width > 0 && height > 0 && width <= MAX_SENSOR_EDGE as usize && height <= MAX_SENSOR_EDGE as usize) {
        return Err(DngLayoutError::SensorEdgeOutOfRange { width, height });
    }
    let pixels = match width.checked_mul(height) {
        Some(p) => p,
        None => return Err(DngLayoutError::PixelCountOverflow),
    };
    if pixels as u64 > MAX_SENSOR_PIXELS {
        return Err(DngLayoutError::TooManySensorPixels);
    }
    Ok(pixels)
}

/// The text a DNG layout refusal is reported with.
pub open spec fn dng_layout_error_text(error: DngLayoutError) -> Seq<char> {
    match error {
        DngLayoutError::SensorEdgeOutOfRange { width, height } => "Rawler sensor dimensions "@ + decimal(
            width as nat,
        ) + "x"@ + decimal(height as nat) + " exceed the sensor edge limit"@,
        DngLayoutError::PixelCountOverflow => "sensor pixel count overflow"@,
        DngLayoutError::TooManySensorPixels => "Rawler sensor dimensions exceed the 160000000-pixel limit"@,
        DngLayoutError::InvalidStripHeight => "invalid DNG strip height"@,
        DngLayoutError::TileWidthOverflow => "tile width overflow"@,
        DngLayoutError::TileHeightOverflow => "tile height overflow"@,
        DngLayoutError::ChunkCountMismatch => "invalid DNG strip/tile count"@,
        DngLayoutError::ChunkOutsideFile => "DNG pixel payload is outside the file"@,
        DngLayoutError::MissingSampleCount => "missing sample count"@,
        DngLayoutError::MissingPhotometric => "missing photometric interpretation"@,
        DngLayoutError::UnsupportedPhotometric { photometric, channels } => "unsupported DNG photometric interpretation "@
            + decimal(photometric as nat) + " with "@ + decimal(channels as nat) + " channels"@,
        DngLayoutError::PlanarSamples => "planar DNG samples are unsupported"@,
        DngLayoutError::NonRectangularCfa => "non-rectangular DNG CFA layout is unsupported"@,
        DngLayoutError::UnappliedCorrection(tag) => match tag {
            DngCorrection::OpcodeList1 => "Rawler cannot apply DNG correction OpcodeList1"@,
            DngCorrection::OpcodeList3 => "Rawler cannot apply DNG correction OpcodeList3"@,
            DngCorrection::BlackLevelDeltaH => "Rawler cannot apply DNG black-level correction BlackLevelDeltaH"@,
            DngCorrection::BlackLevelDeltaV => "Rawler cannot apply DNG black-level correction BlackLevelDeltaV"@,
        },
        DngLayoutError::DecodedDimensionsMismatch => "Rawler decoded dimensions differ from the validated header"@,
        DngLayoutError::RotatedSensor => "rotated sensor geometry is unsupported"@,
        DngLayoutError::SampleCountOverflow => "RAW sample count overflow"@,
        DngLayoutError::SampleCountMismatch => "Rawler sample count differs from its dimensions"@,
        DngLayoutError::InvalidBlackPattern => "invalid DNG black-level pattern"@,
        DngLayoutError::BlackSampleCountMismatch => "invalid black-level sample count"@,
        DngLayoutError::UnsupportedCfaPattern => "unsupported DNG CFA pattern"@,
        DngLayoutError::NonRgbCfaColor => "non-RGB CFA colors are unsupported"@,
        DngLayoutError::UnsupportedCfaCounts => "unsupported Bayer/X-Trans pattern"@,
        DngLayoutError::NonBayerCfa => "non-Bayer 2x2 CFA"@,
    }
}

impl DngLayoutError {
    pub fn message(&self) -> (r: String)
        ensures
            r@ == dng_layout_error_text(*self),
    {
        match *self {
            DngLayoutError::SensorEdgeOutOfRange { width, height } => {
                let mut text = String::from_str("Rawler sensor dimensions ");
                append_decimal(&mut text, width as u64);
                text.append("x");
                append_decimal(&mut text, height as u64);
                text.append(" exceed the sensor edge limit");
                text
            },
            DngLayoutError::PixelCountOverflow => String::from_str("sensor pixel count overflow"),
            DngLayoutError::TooManySensorPixels => String::from_str(
                "Rawler sensor dimensions exceed the 160000000-pixel limit",
            ),
            DngLayoutError::InvalidStripHeight => String::from_str("invalid DNG strip height"),
            DngLayoutError::TileWidthOverflow => String::from_str("tile width overflow"),
            DngLayoutError::TileHeightOverflow => String::from_str("tile height overflow"),
            DngLayoutError::ChunkCountMismatch => String::from_str("invalid DNG strip/tile count"),
            DngLayoutError::ChunkOutsideFile => String::from_str("DNG pixel payload is outside the file"),
            DngLayoutError::MissingSampleCount => String::from_str("missing sample count"),
            DngLayoutError::MissingPhotometric => String::from_str("missing photometric interpretation"),
            DngLayoutError::UnsupportedPhotometric { photometric, channels } => {
                let mut text = String::from_str("unsupported DNG photometric interpretation ");
                append_decimal(&mut text, photometric as u64);
                text.append(" with ");
                append_decimal(&mut text, channels as u64);
                text.append(" channels");
                text
            },
            DngLayoutError::PlanarSamples => String::from_str("planar DNG samples are unsupported"),
            DngLayoutError::NonRectangularCfa => String::from_str("non-rectangular DNG CFA layout is unsupported"),
            DngLayoutError::UnappliedCorrection(tag) => match tag {
                DngCorrection::OpcodeList1 => String::from_str("Rawler cannot apply DNG correction OpcodeList1"),
                DngCorrection::OpcodeList3 => String::from_str("Rawler cannot apply DNG correction OpcodeList3"),
                DngCorrection::BlackLevelDeltaH => String::from_str(
                    "Rawler cannot apply DNG black-level correction BlackLevelDeltaH",
                ),
                DngCorrection::BlackLevelDeltaV => String::from_str(
                    "Rawler cannot apply DNG black-level correction BlackLevelDeltaV",
                ),
            },
            DngLayoutError::DecodedDimensionsMismatch => String::from_str(
                "Rawler decoded dimensions differ from the validated header",
            ),
            DngLayoutError::RotatedSensor => String::from_str("rotated sensor geometry is unsupported"),
            DngLayoutError::SampleCountOverflow => String::from_str("RAW sample count overflow"),
            DngLayoutError::SampleCountMismatch => String::from_str("Rawler sample count differs from its dimensions"),
            DngLayoutError::InvalidBlackPattern => String::from_str("invalid DNG black-level pattern"),
            DngLayoutError::BlackSampleCountMismatch => String::from_str("invalid black-level sample count"),
            DngLayoutError::UnsupportedCfaPattern => String::from_str("unsupported DNG CFA pattern"),
            DngLayoutError::NonRgbCfaColor => String::from_str("non-RGB CFA colors are unsupported"),
            DngLayoutError::UnsupportedCfaCounts => String::from_str("unsupported Bayer/X-Trans pattern"),
            DngLayoutError::NonBayerCfa => String::from_str("non-Bayer 2x2 CFA"),
        }
    }
}

/// Every refusal of [`sensor_dimensions`] is reported with a text that
/// names the sensor.
pub proof fn lemma_sensor_errors_name_the_sensor(width: usize, height: usize)
    requires
        spec_sensor_dimensions(width, height) is Err,
    ensures
        has_infix(dng_layout_error_text(spec_sensor_dimensions(width, height)->Err_0), "sensor"@),
{
    reveal_strlit("sensor");
    reveal_strlit("Rawler sensor dimensions ");
    reveal_strlit("sensor pixel count overflow");
    reveal_strlit("Rawler sensor dimensions exceed the 160000000-pixel limit");
    let text = dng_layout_error_text(spec_sensor_dimensions(width, height)->Err_0);
    match spec_sensor_dimensions(width, height)->Err_0 {
        DngLayoutError::PixelCountOverflow => {
            assert(text.subrange(0, 6) =~= "sensor"@);
            assert(text.subrange(0int, 0int + "sensor"@.len()) == "sensor"@);
        },
        _ => {
            assert(text.subrange(7, 13) =~= "sensor"@);
            assert(text.subrange(7int, 7int + "sensor"@.len()) == "sensor"@);
        },
    }
}

/// The strip or tile count of a DNG's pixel layout, from its sensor size,
/// its tile size (for a tiled image) and its rows per strip (the whole
/// height when missing): the sensor is checked first, then the tiles or
/// strips.
pub open spec fn spec_dng_chunk_count(
    sensor_width: usize,
    sensor_height: usize,
    tile: Option<(usize, usize)>,
    rows_per_strip: Option<usize>,
) -> Result<usize, DngLayoutError> {
    match spec_sensor_dimensions(sensor_width, sensor_height) {
        Err(e) => Err(e),
        Ok(_) => match tile {
            Some((tile_width, tile_height)) => spec_tile_chunk_count(sensor_width, sensor_height, tile_width, tile_height),
            None => spec_strip_chunk_count(
                sensor_height,
                match rows_per_strip {
                    Some(rows) => rows,
                    None => sensor_height,
                },
            ),
        },
    }
}

pub fn dng_chunk_count(
    sensor_width: usize,
    sensor_height: usize,
    tile: Option<(usize, usize)>,
    rows_per_strip: Option<usize>,
) -> (r: Result<usize, DngLayoutError>)
    ensures
        r == spec_dng_chunk_count(sensor_width, sensor_height, tile, rows_per_strip),
{
    match sensor_dimensions(sensor_width, sensor_height) {
        Err(e) => return Err(e),
        Ok(_) => {},
    }
    match tile {
        Some((tile_width, tile_height)) => tile_chunk_count(sensor_width, sensor_height, tile_width, tile_height),
        None => {
            let rows = match rows_per_strip {
                Some(rows) => rows,
                None => sensor_height,
            };
            strip_chunk_count(sensor_height, rows)
        },
    }
}

/// `ceil(a / b)`.
pub open spec fn div_ceil(a: int, b: int) -> int {
    (a + b - 1) / b
}

fn div_ceil_usize(a: usize, b: usize) -> (r: usize)
    requires
        b > 0,
    ensures
        r == div_ceil(a as int, b as int),
{
    let q = a / b;
    if a % b == 0 {
        proof {
            vstd::arithmetic::div_mod::lemma_fundamental_div_mod(a as int, b as int);
            vstd::arithmetic::div_mod::lemma_fundamental_div_mod_converse(a + b - 1, b as int, q as int, b - 1);
        }
        q
    } else {
        proof {
            vstd::arithmetic::div_mod::lemma_fundamental_div_mod(a as int, b as int);
            let r0 = a % b;
            vstd::arithmetic::div_mod::lemma_mod_bound(a as int, b as int);
            assert(a + b - 1 == (q + 1) * b + (r0 - 1)) by (nonlinear_arith)
                requires
                    a == b * q + r0,
            ;
            vstd::arithmetic::div_mod::lemma_fundamental_div_mod_converse(
                a + b - 1,
                b as int,
                q + 1,
                r0 - 1,
            );
            assert(q * b + b <= a + b - 1) by (nonlinear_arith)
                requires
                    a == b * q + r0,
                    r0 >= 1,
            ;
            assert(q < a) by (nonlinear_arith)
                requires
                    a == b * q + r0,
                    r0 >= 1,
                    b >= 1,
                    q >= 0,
            ;
        }
        q + 1
    }
}

pub open spec fn spec_tile_chunk_count(
    width: usize,
    height: usize,
    tile_width: usize,
    tile_height: usize,
) -> Result<usize, DngLayoutError> {
    match spec_sensor_dimensions(tile_width, tile_height) {
        Err(e) => Err(e),
        Ok(_) => {
            let columns = div_ceil(width as int, tile_width as int);
            let rows = div_ceil(height as int, tile_height as int);
            if columns * tile_width > usize::MAX {
                Err(DngLayoutError::TileWidthOverflow)
            } else if rows * tile_height > usize::MAX {
                Err(DngLayoutError::TileHeightOverflow)
            } else {
                match spec_sensor_dimensions((columns * tile_width) as usize, (rows * tile_height) as usize) {
                    Err(e) => Err(e),
                    Ok(_) => Ok((columns * rows) as usize),
                }
            }
        },
    }
}

/// The number of tiles of a tiled sensor; the tile and the padded tile
/// grid must both be valid sensors.
pub fn tile_chunk_count(width: usize, height: usize, tile_width: usize, tile_height: usize) -> (r: Result<
    usize,
    DngLayoutError,
>)
    ensures
        r == spec_tile_chunk_count(width, height, tile_width, tile_height),
{
    match sensor_dimensions(tile_width, tile_height) {
        Err(e) => return Err(e),
        Ok(_) => {},
    }
    let columns = div_ceil_usize(width, tile_width);
    let rows = div_ceil_usize(height, tile_height);
    let grid_width = match columns.checked_mul(tile_width) {
        Some(v) => v,
        None => return Err(DngLayoutError::TileWidthOverflow),
    };
    let grid_height = match rows.checked_mul(tile_height) {
        Some(v) => v,
        None => return Err(DngLayoutError::TileHeightOverflow),
    };
    match sensor_dimensions(grid_width, grid_height) {
        Err(e) => return Err(e),
        Ok(_) => {},
    }
    proof {
        assert(columns * rows <= grid_width * grid_height) by (nonlinear_arith)
            requires
                grid_width == columns * tile_width,
                grid_height == rows * tile_height,
                tile_width >= 1,
                tile_height >= 1,
                columns >= 0,
                rows >= 0,
        ;
    }
    Ok(columns * rows)
}

pub open spec fn spec_strip_chunk_count(height: usize, rows_per_strip: usize) -> Result<usize, DngLayoutError> {
    if rows_per_strip == 0 || rows_per_strip > MAX_SENSOR_EDGE {
        Err(DngLayoutError::InvalidStripHeight)
    } else {
        Ok(div_ceil(height as int, rows_per_strip as int) as usize)
    }
}

/// The number of strips of a sensor `height` rows tall.
pub fn strip_chunk_count(height: usize, rows_per_strip: usize) -> (r: Result<usize, DngLayoutError>)
    ensures
        r == spec_strip_chunk_count(height, rows_per_strip),
{
    if rows_per_strip == 0 || rows_per_strip > MAX_SENSOR_EDGE as usize {
        return Err(DngLayoutError::InvalidStripHeight);
    }
    Ok(div_ceil_usize(height, rows_per_strip))
}

/// Every chunk is non-empty and inside a file of `file_len` bytes.
pub open spec fn chunks_inside(offsets: Seq<usize>, byte_counts: Seq<usize>, file_len: usize) -> bool {
    forall|i: int|
        0 <= i < offsets.len() ==> #[trigger] byte_counts[i] > 0 && offsets[i] + byte_counts[i] <= file_len
}

/// Checks that the file lists one offset and one byte count per chunk and
/// that every chunk is non-empty and inside the file.
pub fn check_chunks(offsets: &[usize], byte_counts: &[usize], count: usize, file_len: usize) -> (r: Result<
    (),
    DngLayoutError,
>)
    ensures
        r is Ok <==> (offsets@.len() == count && byte_counts@.len() == count && chunks_inside(
            offsets@,
            byte_counts@,
            file_len,
        )),
        r is Err ==> r == (if offsets@.len() != count || byte_counts@.len() != count {
            Err::<(), DngLayoutError>(DngLayoutError::ChunkCountMismatch)
        } else {
            Err::<(), DngLayoutError>(DngLayoutError::ChunkOutsideFile)
        }),
{
    if offsets.len() != count || byte_counts.len() != count {
        return Err(DngLayoutError::ChunkCountMismatch);
    }
    let mut i: usize = 0;
    while i < count
        invariant
            offsets@.len() == count,
            byte_counts@.len() == count,
            0 <= i <= count,
            forall|k: int|
                0 <= k < i ==> #[trigger] byte_counts@[k] > 0 && offsets@[k] + byte_counts@[k] <= file_len,
        decreases count - i,
    {
        let bytes = byte_counts[i];
        let inside = match offsets[i].checked_add(bytes) {
            Some(end) => end <= file_len,
            None => false,
        };
        if !(bytes > 0 && inside) {
            return Err(DngLayoutError::ChunkOutsideFile);
        }
        i += 1;
    }
    Ok(())
}

/// The crop and orientation of a DNG: the default crop inside the sensor
/// and the flips of its orientation tag.
#[derive(Clone, Copy, Debug, PartialEq, Eq, Structural)]
pub struct DngGeometry {
    pub sensor_width: usize,
    pub sensor_height: usize,
    pub x: usize,
    pub y: usize,
    pub width: usize,
    pub height: usize,
    pub transpose: bool,
    pub horizontal: bool,
    pub vertical: bool,
}

impl DngGeometry {
    /// The crop lies inside the sensor.
    pub open spec fn crop_inside(self) -> bool {
        self.x + self.width <= self.sensor_width && self.y + self.height <= self.sensor_height
    }

    /// The output dimensions: a transposing orientation swaps the edges.
    pub fn dimensions(self) -> (r: (usize, usize))
        ensures
            r == (if self.transpose { (self.height, self.width) } else { (self.width, self.height) }),
    {
        if self.transpose {
            (self.height, self.width)
        } else {
            (self.width, self.height)
        }
    }

    /// The sensor position of output pixel `(x, y)`: transposed first, then
    /// mirrored inside the crop, then offset by the crop origin.
    pub open spec fn spec_source(self, x: int, y: int) -> (int, int) {
        let (tx, ty) = if self.transpose { (y, x) } else { (x, y) };
        (
            self.x + if self.horizontal { self.width - 1 - tx } else { tx },
            self.y + if self.vertical { self.height - 1 - ty } else { ty },
        )
    }

    pub fn source(self, x: usize, y: usize) -> (r: (usize, usize))
        requires
            self.crop_inside(),
            if self.transpose { y < self.width && x < self.height } else { x < self.width && y < self.height },
        ensures
            (r.0 as int, r.1 as int) == self.spec_source(x as int, y as int),
            r.0 < self.sensor_width,
            r.1 < self.sensor_height,
    {
        let (tx, ty) = if self.transpose { (y, x) } else { (x, y) };
        let sx = if self.horizontal { self.width - 1 - tx } else { tx };
        let sy = if self.vertical { self.height - 1 - ty } else { ty };
        (self.x + sx, self.y + sy)
    }
}

/// Every output pixel of a geometry maps to a distinct sensor position
/// inside its crop.
pub proof fn lemma_source_is_injective(g: DngGeometry, x1: int, y1: int, x2: int, y2: int)
    requires
        g.spec_source(x1, y1) == g.spec_source(x2, y2),
    ensures
        x1 == x2 && y1 == y2,
{
}

/// `value`, or `default` when it is missing.
pub open spec fn or_default(value: Option<usize>, default: usize) -> usize {
    match value {
        Some(v) => v,
        None => default,
    }
}

pub open spec fn spec_check_dng_sample_format(
    samples_per_pixel: Option<usize>,
    photometric: Option<usize>,
    planar_configuration: Option<usize>,
    cfa_layout: Option<usize>,
) -> Result<(), DngLayoutError> {
    match samples_per_pixel {
        None => Err(DngLayoutError::MissingSampleCount),
        Some(channels) => match photometric {
            None => Err(DngLayoutError::MissingPhotometric),
            Some(p) => if !((p == 32803 && channels == 1) || (p == 34892 && channels == 3)) {
                Err(DngLayoutError::UnsupportedPhotometric { photometric: p, channels })
            } else if or_default(planar_configuration, 1) != 1 {
                Err(DngLayoutError::PlanarSamples)
            } else if or_default(cfa_layout, 1) != 1 {
                Err(DngLayoutError::NonRectangularCfa)
            } else {
                Ok(())
            },
        },
    }
}

/// Checks the sample tags of a raw DNG image: a one-channel CFA or a
/// three-channel linear raw image, interleaved samples (planar
/// configuration 1 when present) and a rectangular CFA layout (1 when
/// present).
pub fn check_dng_sample_format(
    samples_per_pixel: Option<usize>,
    photometric: Option<usize>,
    planar_configuration: Option<usize>,
    cfa_layout: Option<usize>,
) -> (r: Result<(), DngLayoutError>)
    ensures
        r == spec_check_dng_sample_format(samples_per_pixel, photometric, planar_configuration, cfa_layout),
{
    let channels = match samples_per_pixel {
        None => return Err(DngLayoutError::MissingSampleCount),
        Some(c) => c,
    };
    let p = match photometric {
        None => return Err(DngLayoutError::MissingPhotometric),
        Some(p) => p,
    };
    if !((p == 32803 && channels == 1) || (p == 34892 && channels == 3)) {
        return Err(DngLayoutError::UnsupportedPhotometric { photometric: p, channels });
    }
    let planar = match planar_configuration {
        Some(v) => v,
        None => 1,
    };
    if planar != 1 {
        return Err(DngLayoutError::PlanarSamples);
    }
    let layout = match cfa_layout {
        Some(v) => v,
        None => 1,
    };
    if layout != 1 {
        return Err(DngLayoutError::NonRectangularCfa);
    }
    Ok(())
}

pub open spec fn spec_check_dng_corrections(
    opcode_list1: bool,
    opcode_list3: bool,
    black_level_delta_h: bool,
    black_level_delta_v: bool,
) -> Result<(), DngLayoutError> {
    if opcode_list1 {
        Err(DngLayoutError::UnappliedCorrection(DngCorrection::OpcodeList1))
    } else if opcode_list3 {
        Err(DngLayoutError::UnappliedCorrection(DngCorrection::OpcodeList3))
    } else if black_level_delta_h {
        Err(DngLayoutError::UnappliedCorrection(DngCorrection::BlackLevelDeltaH))
    } else if black_level_delta_v {
        Err(DngLayoutError::UnappliedCorrection(DngCorrection::BlackLevelDeltaV))
    } else {
        Ok(())
    }
}

/// `error` names an unapplied correction that is present.
pub open spec fn correction_present(
    error: DngLayoutError,
    opcode_list1: bool,
    opcode_list3: bool,
    black_level_delta_h: bool,
    black_level_delta_v: bool,
) -> bool {
    match error {
        DngLayoutError::UnappliedCorrection(DngCorrection::OpcodeList1) => opcode_list1,
        DngLayoutError::UnappliedCorrection(DngCorrection::OpcodeList3) => opcode_list3,
        DngLayoutError::UnappliedCorrection(DngCorrection::BlackLevelDeltaH) => black_level_delta_h,
        DngLayoutError::UnappliedCorrection(DngCorrection::BlackLevelDeltaV) => black_level_delta_v,
        _ => false,
    }
}

/// A DNG passes the correction check exactly when it carries none of the
/// first or third opcode list and the row or column black-level deltas;
/// a refusal names one that it carries (so a lone correction is the one
/// named).
pub proof fn lemma_unapplied_corrections_are_refused(
    opcode_list1: bool,
    opcode_list3: bool,
    black_level_delta_h: bool,
    black_level_delta_v: bool,
)
    ensures
        ({
            let r = spec_check_dng_corrections(opcode_list1, opcode_list3, black_level_delta_h, black_level_delta_v);
            &&& r is Ok <==> !(opcode_list1 || opcode_list3 || black_level_delta_h || black_level_delta_v)
            &&& r is Err ==> correction_present(
                r->Err_0,
                opcode_list1,
                opcode_list3,
                black_level_delta_h,
                black_level_delta_v,
            )
        }),
{
}

/// Refuses a raw DNG image that carries a correction the decoder would
/// leave unapplied: the first and third opcode lists and the row and
/// column black-level deltas, reported in that order. The second opcode
/// list is accepted and left unapplied.
pub fn check_dng_corrections(
    opcode_list1: bool,
    opcode_list3: bool,
    black_level_delta_h: bool,
    black_level_delta_v: bool,
) -> (r: Result<(), DngLayoutError>)
    ensures
        r == spec_check_dng_corrections(opcode_list1, opcode_list3, black_level_delta_h, black_level_delta_v),
        r is Ok <==> !(opcode_list1 || opcode_list3 || black_level_delta_h || black_level_delta_v),
        r is Err ==> correction_present(
            r->Err_0,
            opcode_list1,
            opcode_list3,
            black_level_delta_h,
            black_level_delta_v,
        ),
{
    if opcode_list1 {
        Err(DngLayoutError::UnappliedCorrection(DngCorrection::OpcodeList1))
    } else if opcode_list3 {
        Err(DngLayoutError::UnappliedCorrection(DngCorrection::OpcodeList3))
    } else if black_level_delta_h {
        Err(DngLayoutError::UnappliedCorrection(DngCorrection::BlackLevelDeltaH))
    } else if black_level_delta_v {
        Err(DngLayoutError::UnappliedCorrection(DngCorrection::BlackLevelDeltaV))
    } else {
        Ok(())
    }
}

pub open spec fn spec_check_decoded_image(
    decoded_width: usize,
    decoded_height: usize,
    header_width: usize,
    header_height: usize,
    rotated: bool,
    channels: usize,
    sample_count: usize,
) -> Result<(), DngLayoutError> {
    if decoded_width != header_width || decoded_height != header_height {
        Err(DngLayoutError::DecodedDimensionsMismatch)
    } else if rotated {
        Err(DngLayoutError::RotatedSensor)
    } else {
        match spec_sensor_dimensions(decoded_width, decoded_height) {
            Err(e) => Err(e),
            Ok(pixels) => if pixels * channels > usize::MAX {
                Err(DngLayoutError::SampleCountOverflow)
            } else if sample_count != pixels * channels {
                Err(DngLayoutError::SampleCountMismatch)
            } else {
                Ok(())
            },
        }
    }
}

/// Checks a decoded raw image against the header it was validated from:
/// the same dimensions, an unrotated sensor within the sensor limits, and
/// exactly one sample per pixel and channel.
pub fn check_decoded_image(
    decoded_width: usize,
    decoded_height: usize,
    header_width: usize,
    header_height: usize,
    rotated: bool,
    channels: usize,
    sample_count: usize,
) -> (r: Result<(), DngLayoutError>)
    ensures
        r == spec_check_decoded_image(
            decoded_width,
            decoded_height,
            header_width,
            header_height,
            rotated,
            channels,
            sample_count,
        ),
{
    if decoded_width != header_width || decoded_height != header_height {
        return Err(DngLayoutError::DecodedDimensionsMismatch);
    }
    if rotated {
        return Err(DngLayoutError::RotatedSensor);
    }
    let pixels = match sensor_dimensions(decoded_width, decoded_height) {
        Err(e) => return Err(e),
        Ok(p) => p,
    };
    let expected = match pixels.checked_mul(channels) {
        None => return Err(DngLayoutError::SampleCountOverflow),
        Some(e) => e,
    };
    if sample_count != expected {
        return Err(DngLayoutError::SampleCountMismatch);
    }
    Ok(())
}

pub open spec fn spec_check_black_pattern(
    channels: usize,
    black_channels: usize,
    black_width: usize,
    black_height: usize,
    level_count: usize,
    image_width: usize,
    image_height: usize,
) -> Result<(), DngLayoutError> {
    if !(black_channels == channels && black_width > 0 && black_height > 0 && black_width <= image_width
        && black_height <= image_height) {
        Err(DngLayoutError::InvalidBlackPattern)
    } else if black_width * black_height > usize::MAX || black_width * black_height * black_channels
        != level_count {
        Err(DngLayoutError::BlackSampleCountMismatch)
    } else {
        Ok(())
    }
}

/// Checks the repeating black-level pattern of a decoded image: one level
/// per channel of the image, a non-empty tile no larger than the image,
/// and exactly one level per tile position and channel.
pub fn check_black_pattern(
    channels: usize,
    black_channels: usize,
    black_width: usize,
    black_height: usize,
    level_count: usize,
    image_width: usize,
    image_height: usize,
) -> (r: Result<(), DngLayoutError>)
    ensures
        r == spec_check_black_pattern(
            channels,
            black_channels,
            black_width,
            black_height,
            level_count,
            image_width,
            image_height,
        ),
{
    if !(black_channels == channels && black_width > 0 && black_height > 0 && black_width <= image_width
        && black_height <= image_height) {
        return Err(DngLayoutError::InvalidBlackPattern);
    }
    let expected = match black_width.checked_mul(black_height) {
        None => None,
        Some(n) => n.checked_mul(black_channels),
    };
    proof {
        if black_width * black_height <= usize::MAX && expected is None {
            assert(black_width * black_height * black_channels > usize::MAX);
        }
    }
    match expected {
        Some(n) if n == level_count => Ok(()),
        _ => Err(DngLayoutError::BlackSampleCountMismatch),
    }
}

/// How often colour `c` occurs in `colors`.
pub open spec fn color_count(colors: Seq<usize>, c: usize) -> nat
    decreases colors.len(),
{
    if colors.len() == 0 {
        0
    } else {
        color_count(colors.drop_last(), c) + if colors.last() == c {
            1nat
        } else {
            0nat
        }
    }
}

/// The first position at or after `i` that holds green (colour 1), or the
/// length of `colors` when none does.
pub open spec fn first_green_from(colors: Seq<usize>, i: int) -> int
    decreases colors.len() - i,
{
    if i >= colors.len() || i < 0 {
        colors.len() as int
    } else if colors[i] == 1 {
        i
    } else {
        first_green_from(colors, i + 1)
    }
}

/// A CFA pattern of `width` x `height` colours, read row by row: a 2 x 2
/// pattern must be Bayer (one red, two greens, one blue, the first colour
/// differing from its right and lower neighbours) and a 6 x 6 pattern
/// X-Trans (eight red, twenty green and eight blue); colours other than
/// red (0), green (1) and blue (2) are refused. The result is the demosaic
/// family and the first green position of the pattern.
pub open spec fn spec_classify_dng_cfa(width: usize, height: usize, colors: Seq<usize>) -> Result<
    (CfaKind, usize),
    DngLayoutError,
> {
    if !((width == 2 && height == 2) || (width == 6 && height == 6)) {
        Err(DngLayoutError::UnsupportedCfaPattern)
    } else if exists|i: int| 0 <= i < colors.len() && #[trigger] colors[i] >= 3 {
        Err(DngLayoutError::NonRgbCfaColor)
    } else if !((width == 2 && color_count(colors, 0) == 1 && color_count(colors, 1) == 2 && color_count(colors, 2)
        == 1) || (width == 6 && color_count(colors, 0) == 8 && color_count(colors, 1) == 20 && color_count(colors, 2)
        == 8)) {
        Err(DngLayoutError::UnsupportedCfaCounts)
    } else if width == 2 && (colors[0] == colors[1] || colors[0] == colors[2]) {
        Err(DngLayoutError::NonBayerCfa)
    } else {
        Ok(
            (
                if width == 2 {
                    CfaKind::Bayer
                } else {
                    CfaKind::XTrans
                },
                first_green_from(colors, 0) as usize,
            ),
        )
    }
}

/// Classifies the CFA pattern of a decoded DNG; see [`spec_classify_dng_cfa`].
pub fn classify_dng_cfa(width: usize, height: usize, colors: &[usize]) -> (r: Result<
    (CfaKind, usize),
    DngLayoutError,
>)
    requires
        colors@.len() == width * height,
    ensures
        r == spec_classify_dng_cfa(width, height, colors@),
{
    if !((width == 2 && height == 2) || (width == 6 && height == 6)) {
        return Err(DngLayoutError::UnsupportedCfaPattern);
    }
    let len = colors.len();
    let mut reds: usize = 0;
    let mut greens: usize = 0;
    let mut blues: usize = 0;
    let mut i: usize = 0;
    while i < len
        invariant
            (width == 2 && height == 2) || (width == 6 && height == 6),
            len == colors@.len(),
            len <= 36,
            0 <= i <= len,
            forall|k: int| 0 <= k < i ==> #[trigger] colors@[k] < 3,
            reds == color_count(colors@.subrange(0, i as int), 0),
            greens == color_count(colors@.subrange(0, i as int), 1),
            blues == color_count(colors@.subrange(0, i as int), 2),
            reds + greens + blues == i,
        decreases len - i,
    {
        let c = colors[i];
        if c >= 3 {
            proof {
                assert(colors@[i as int] >= 3);
            }
            return Err(DngLayoutError::NonRgbCfaColor);
        }
        proof {
            assert(colors@.subrange(0, i + 1).drop_last() =~= colors@.subrange(0, i as int));
        }
        if c == 0 {
            reds += 1;
        } else if c == 1 {
            greens += 1;
        } else {
            blues += 1;
        }
        i += 1;
    }
    proof {
        assert(colors@.subrange(0, len as int) =~= colors@);
    }
    if !((width == 2 && reds == 1 && greens == 2 && blues == 1) || (width == 6 && reds == 8 && greens == 20
        && blues == 8)) {
        return Err(DngLayoutError::UnsupportedCfaCounts);
    }
    if width == 2 && (colors[0] == colors[1] || colors[0] == colors[2]) {
        return Err(DngLayoutError::NonBayerCfa);
    }
    let mut green: usize = 0;
    while green < len && colors[green] != 1
        invariant
            len == colors@.len(),
            0 <= green <= len,
            first_green_from(colors@, green as int) == first_green_from(colors@, 0),
        decreases len - green,
    {
        green += 1;
    }
    let kind = if width == 2 {
        CfaKind::Bayer
    } else {
        CfaKind::XTrans
    };
    Ok((kind, green))
}

/// The colour that a square pattern with edge `period`, read row by row,
/// gives sensor position `(x, y)`.
pub open spec fn pattern_color(colors: Seq<usize>, period: int, x: int, y: int) -> usize {
    colors[(y % period) * period + x % period]
}

/// The channel of sensor position `(x, y)`: its pattern colour, except
/// that on a 2 x 2 pattern a green other than the one at `green_position`
/// is the second green channel, 3.
pub open spec fn spec_dng_channel(colors: Seq<usize>, period: int, green_position: int, x: int, y: int) -> int {
    let c = pattern_color(colors, period, x, y);
    if period == 2 && c == 1 && (y % 2) * 2 + x % 2 != green_position {
        3
    } else {
        c as int
    }
}

pub fn dng_channel_at(colors: &[usize], period: usize, green_position: usize, x: usize, y: usize) -> (r: u8)
    requires
        period > 0,
        colors@.len() == period * period,
        forall|i: int| 0 <= i < colors@.len() ==> #[trigger] colors@[i] < 3,
    ensures
        r as int == spec_dng_channel(colors@, period as int, green_position as int, x as int, y as int),
        r == spec_dng_channel(colors@, period as int, green_position as int, x as int, y as int) as u8,
{
    let len = colors.len();
    let row = y % period;
    let column = x % period;
    proof {
        assert(row * period + column < period * period && row * period <= period * period) by (nonlinear_arith)
            requires
                row < period,
                column < period,
        ;
    }
    let c = colors[row * period + column];
    if period == 2 && c == 1 && (y % 2) * 2 + x % 2 != green_position {
        3
    } else {
        c as u8
    }
}

impl DngGeometry {
    /// The output width and height.
    pub open spec fn output_size(self) -> (int, int) {
        if self.transpose {
            (self.height as int, self.width as int)
        } else {
            (self.width as int, self.height as int)
        }
    }
}

/// A classified Bayer pattern gives its four positions four distinct
/// channels: red, the first green, blue and the other green.
pub proof fn lemma_bayer_channels_are_distinct(colors: Seq<usize>)
    requires
        colors.len() == 4,
        spec_classify_dng_cfa(2, 2, colors) is Ok,
    ensures
        ({
            let green = spec_classify_dng_cfa(2, 2, colors)->Ok_0.1 as int;
            forall|p: int, q: int|
                0 <= p < q < 4 ==> #[trigger] spec_dng_channel(colors, 2, green, p % 2, p / 2)
                    != #[trigger] spec_dng_channel(colors, 2, green, q % 2, q / 2)
        }),
{
    reveal_with_fuel(color_count, 5);
    reveal_with_fuel(first_green_from, 5);
    assert(colors.drop_last().drop_last().drop_last().drop_last() =~= Seq::<usize>::empty());
    assert(forall|i: int| 0 <= i < 4 ==> #[trigger] colors[i] < 3);
    assert(colors.drop_last().last() == colors[2]);
    assert(colors.drop_last().drop_last().last() == colors[1]);
    assert(colors.drop_last().drop_last().drop_last().last() == colors[0]);
}

/// The sensor samples of every output pixel, row by row: output pixel
/// `(x, y)` holds the sample of the sensor position it maps to in a
/// row-major sensor buffer.
pub open spec fn oriented_samples(g: DngGeometry, data: Seq<u16>) -> Seq<u16> {
    let (w, h) = g.output_size();
    Seq::new(
        (w * h) as nat,
        |i: int|
            {
                let (sx, sy) = g.spec_source(i % w, i / w);
                data[row_major(g.sensor_width as int, sx, sy)]
            },
    )
}

/// Copies the samples of a single-channel decoded sensor into output
/// order through the crop and orientation of the image.
pub fn oriented_sensor_samples(g: DngGeometry, data: &[u16]) -> (r: Vec<u16>)
    requires
        g.crop_inside(),
        data@.len() == g.sensor_width * g.sensor_height,
        g.width * g.height <= usize::MAX,
    ensures
        r@ == oriented_samples(g, data@),
{
    let len = data.len();
    let (ow, oh) = g.dimensions();
    let ghost expected = oriented_samples(g, data@);
    let mut out: Vec<u16> = Vec::new();
    let mut y: usize = 0;
    proof {
        assert(ow * oh == g.width * g.height) by (nonlinear_arith)
            requires
                (ow == g.width && oh == g.height) || (ow == g.height && oh == g.width),
        ;
    }
    while y < oh
        invariant
            g.crop_inside(),
            len == data@.len(),
            data@.len() == g.sensor_width * g.sensor_height,
            (ow as int, oh as int) == g.output_size(),
            ow * oh <= usize::MAX,
            expected == oriented_samples(g, data@),
            0 <= y <= oh,
            out@ == expected.take(y * ow),
        decreases oh - y,
    {
        proof {
            assert(y * ow + ow <= ow * oh) by (nonlinear_arith)
                requires
                    y + 1 <= oh,
            ;
        }
        let mut x: usize = 0;
        while x < ow
            invariant
                g.crop_inside(),
                len == data@.len(),
                data@.len() == g.sensor_width * g.sensor_height,
                (ow as int, oh as int) == g.output_size(),
                expected == oriented_samples(g, data@),
                y < oh,
                y * ow + ow <= ow * oh,
                0 <= x <= ow,
                out@ == expected.take(y * ow + x),
            decreases ow - x,
        {
            let (sx, sy) = g.source(x, y);
            proof {
                lemma_row_major_bound(sy as int, sx as int, g.sensor_width as int, g.sensor_height as int);
                assert(g.sensor_height * g.sensor_width == g.sensor_width * g.sensor_height) by (nonlinear_arith);
                lemma_row_major_join(x as int, y as int, ow as int);
                assert(expected.take(y * ow + x + 1) =~= expected.take(y * ow + x).push(expected[y * ow + x]));
            }
            out.push(data[sy * g.sensor_width + sx]);
            x += 1;
        }
        y += 1;
        proof {
            assert((y - 1) * ow + ow == y * ow) by (nonlinear_arith);
        }
    }
    proof {
        assert(expected.take(oh * ow) =~= expected) by {
            assert(oh * ow == ow * oh) by (nonlinear_arith);
        }
    }
    out
}

/// The repeating channel tile of a CFA image in output order: at most one
/// pattern period in each direction, each position holding the channel of
/// the sensor position it maps to.
pub open spec fn channel_tile(g: DngGeometry, colors: Seq<usize>, period: int, green_position: int) -> Seq<u8> {
    let tw = tile_extent(period, g.output_size().0);
    let th = tile_extent(period, g.output_size().1);
    Seq::new((tw * th) as nat, |i: int| tile_channel(g, colors, period, green_position, i % tw, i / tw))
}

/// One pattern period, or the whole edge when it is shorter.
pub open spec fn tile_extent(period: int, edge: int) -> int {
    if period <= edge {
        period
    } else {
        edge
    }
}

/// The channel of output pixel `(x, y)`.
pub open spec fn tile_channel(g: DngGeometry, colors: Seq<usize>, period: int, green_position: int, x: int, y: int) -> u8 {
    let (sx, sy) = g.spec_source(x, y);
    spec_dng_channel(colors, period, green_position, sx, sy) as u8
}

/// Builds the repeating channel tile of a classified CFA image; see
/// [`channel_tile`].
pub fn dng_channel_tile(g: DngGeometry, colors: &[usize], period: usize, green_position: usize) -> (r: (
    usize,
    usize,
    Vec<u8>,
))
    requires
        g.crop_inside(),
        1 <= period <= 6,
        colors@.len() == period * period,
        forall|i: int| 0 <= i < colors@.len() ==> #[trigger] colors@[i] < 3,
    ensures
        ({
            let (w, h) = g.output_size();
            &&& r.0 == (if period <= w { period as int } else { w })
            &&& r.1 == (if period <= h { period as int } else { h })
        }),
        r.2@ == channel_tile(g, colors@, period as int, green_position as int),
{
    let (ow, oh) = g.dimensions();
    let tw = if period <= ow { period } else { ow };
    let th = if period <= oh { period } else { oh };
    let ghost expected = channel_tile(g, colors@, period as int, green_position as int);
    assert(expected.len() == tw * th);
    let mut out: Vec<u8> = Vec::new();
    let mut y: usize = 0;
    while y < th
        invariant
            g.crop_inside(),
            1 <= period <= 6,
            colors@.len() == period * period,
            forall|i: int| 0 <= i < colors@.len() ==> #[trigger] colors@[i] < 3,
            (ow as int, oh as int) == g.output_size(),
            tw <= ow && th <= oh && tw <= 6 && th <= 6,
            tw == (if period <= ow { period } else { ow }),
            th == (if period <= oh { period } else { oh }),
            expected == channel_tile(g, colors@, period as int, green_position as int),
            expected.len() == tw * th,
            0 <= y <= th,
            out@ == expected.take(y * tw),
        decreases th - y,
    {
        proof {
            assert(y * tw + tw <= tw * th) by (nonlinear_arith)
                requires
                    y + 1 <= th,
            ;
        }
        let mut x: usize = 0;
        while x < tw
            invariant
                g.crop_inside(),
                1 <= period <= 6,
                colors@.len() == period * period,
                forall|i: int| 0 <= i < colors@.len() ==> #[trigger] colors@[i] < 3,
                (ow as int, oh as int) == g.output_size(),
                tw <= ow && th <= oh && tw <= 6 && th <= 6,
                tw == (if period <= ow { period } else { ow }),
                expected == channel_tile(g, colors@, period as int, green_position as int),
                expected.len() == tw * th,
                y < th,
                y * tw + tw <= tw * th,
                0 <= x <= tw,
                out@ == expected.take(y * tw + x),
            decreases tw - x,
        {
            let (sx, sy) = g.source(x, y);
            let channel = dng_channel_at(colors, period, green_position, sx, sy);
            proof {
                lemma_row_major_join(x as int, y as int, tw as int);
                let i = y * tw + x;
                assert(row_major(tw as int, x as int, y as int) == i);
                assert(i % (tw as int) == x && i / (tw as int) == y);
                assert((sx as int, sy as int) == g.spec_source(x as int, y as int));
                assert(expected[i] == tile_channel(
                    g,
                    colors@,
                    period as int,
                    green_position as int,
                    x as int,
                    y as int,
                ));
                assert(expected[i] == channel);
                assert(expected.take(y * tw + x + 1) =~= expected.take(y * tw + x).push(expected[y * tw + x]));
            }
            out.push(channel);
            x += 1;
        }
        y += 1;
        proof {
            assert((y - 1) * tw + tw == y * tw) by (nonlinear_arith);
        }
    }
    proof {
        assert(expected.take(th * tw) =~= expected) by {
            assert(th * tw == tw * th) by (nonlinear_arith);
        }
    }
    (tw, th, out)
}

} // verus!
